//! Sizes and savings the way a person would write them.
//!
//! They are worked out in binary arithmetic with 53 significant bits and shown with a
//! fixed number of decimals, rounded to the nearest and ties to even.

use vstd::prelude::*;
use crate::rounding;
use crate::rounding::grain_of;
use crate::rounding::half_even_of;
use crate::rounding::significant_of;
use crate::text;
use crate::text::to_decimal;

verus! {

/// A number of bytes in binary arithmetic.
pub open spec fn counted(bytes: u64) -> nat {
    rounding::significant(bytes as nat, 53)
}

/// A number shown with one decimal.
pub open spec fn one_decimal(num: nat, den: nat) -> Seq<char> {
    let tenths = rounding::half_even(num * 10, den);
    text::decimal(tenths / 10) + "."@ + text::decimal(tenths % 10)
}

/// A number shown with two decimals.
pub open spec fn two_decimals(num: nat, den: nat) -> Seq<char> {
    let hundredths = rounding::half_even(num * 100, den);
    text::decimal(hundredths / 100) + "."@ + text::decimal(hundredths / 10 % 10) + text::decimal(
        hundredths % 10,
    )
}

fn count(bytes: u64) -> (counted_bytes: u128)
    ensures
        counted_bytes == counted(bytes),
        counted_bytes <= 0x2_0000_0000_0000_0000,
        bytes < 0x20_0000_0000_0000 ==> counted_bytes == bytes,
        bytes >= 0x20_0000_0000_0000 ==> counted_bytes >= 0x10_0000_0000_0000,
{
    proof {
        let n = bytes as nat;
        vstd::arithmetic::power2::lemma2_to64_rest();
        rounding::lemma_grain(n, 53);
        rounding::lemma_half_even_fits(n, rounding::grain(n, 53));
        if n < 0x20_0000_0000_0000 {
            assert(rounding::grain(n, 53) == 1);
        }
    }
    significant_of(bytes as u128, 53)
}

fn show_one_decimal(num: u128, den: u128) -> (shown: String)
    requires
        1 <= den <= 0x1_0000_0000_0000,
        num <= 0x2_0000_0000_0000_0000,
        num <= den * 0x4_0000_0000,
    ensures
        shown@ == one_decimal(num as nat, den as nat),
{
    let tenths: u128 = half_even_of(num * 10, den);
    assert(tenths <= 10 * 0x4_0000_0000 + 1) by (nonlinear_arith)
        requires
            tenths <= (num * 10) / (den as int) + 1,
            num <= den * 0x4_0000_0000,
            den >= 1,
    ;
    let mut shown = to_decimal((tenths / 10) as u64);
    shown.append(".");
    shown.append(to_decimal((tenths % 10) as u64).as_str());
    shown
}

fn show_two_decimals(num: u128, den: u128) -> (shown: String)
    requires
        1 <= den <= 0x1_0000_0000_0000,
        num <= 0x2_0000_0000_0000_0000,
        num <= den * 0x2_0000_0000_0000,
    ensures
        shown@ == two_decimals(num as nat, den as nat),
{
    let hundredths: u128 = half_even_of(num * 100, den);
    assert(hundredths <= 100 * 0x2_0000_0000_0000 + 1) by (nonlinear_arith)
        requires
            hundredths <= (num * 100) / (den as int) + 1,
            num <= den * 0x2_0000_0000_0000,
            den >= 1,
    ;
    let mut shown = to_decimal((hundredths / 100) as u64);
    shown.append(".");
    shown.append(to_decimal((hundredths / 10 % 10) as u64).as_str());
    shown.append(to_decimal((hundredths % 10) as u64).as_str());
    shown
}

/// A size in words, as the status bar shows it.
pub open spec fn size_in_words(bytes: u64) -> Seq<char> {
    let n = counted(bytes);
    if n < 1024 {
        text::decimal(n) + " B"@
    } else if n < 1_048_576 {
        one_decimal(n, 1024) + " KB"@
    } else if n < 1_073_741_824 {
        one_decimal(n, 1_048_576) + " MB"@
    } else {
        two_decimals(n, 1_073_741_824) + " GB"@
    }
}

pub fn human_size(bytes: u64) -> (words: String)
    ensures
        words@ == size_in_words(bytes),
{
    let n: u128 = count(bytes);
    if n < 1024 {
        let mut words = to_decimal(n as u64);
        words.append(" B");
        words
    } else if n < 1_048_576 {
        let mut words = show_one_decimal(n, 1024);
        words.append(" KB");
        words
    } else if n < 1_073_741_824 {
        let mut words = show_one_decimal(n, 1_048_576);
        words.append(" MB");
        words
    } else {
        let mut words = show_two_decimals(n, 1_073_741_824);
        words.append(" GB");
        words
    }
}

/// A size in words, as a conversion reports it.
pub open spec fn bytes_in_words(bytes: u64) -> Seq<char> {
    let n = counted(bytes);
    if n < 1024 {
        text::decimal(n) + "B"@
    } else if n < 1_048_576 {
        one_decimal(n, 1024) + "KB"@
    } else {
        two_decimals(n, 1_048_576) + "MB"@
    }
}

pub fn human_bytes(bytes: u64) -> (words: String)
    ensures
        words@ == bytes_in_words(bytes),
{
    let n: u128 = count(bytes);
    if n < 1024 {
        let mut words = to_decimal(n as u64);
        words.append("B");
        words
    } else if n < 1_048_576 {
        let mut words = show_one_decimal(n, 1024);
        words.append("KB");
        words
    } else {
        let mut words = show_two_decimals(n, 1_048_576);
        words.append("MB");
        words
    }
}

/// Two to the power of 117, of which a share of a whole is a count.
pub const WHOLE: u128 = 0x20_0000_0000_0000_0000_0000_0000_0000;

/// What is left of a whole, in percent: a hundred times the share is rounded, and so is
/// what it is short of a hundred.
pub open spec fn percent_saved(before: u64, after: u64) -> nat {
    let share = rounding::quotient((counted(after) * WHOLE) as nat, counted(before), 53);
    let kept = rounding::significant(share * 100, 53);
    let whole = (100 * WHOLE) as nat;
    if kept >= whole {
        0
    } else {
        rounding::half_even(rounding::significant((whole - kept) as nat, 53), WHOLE as nat)
    }
}

/// A saving in words, or nothing when the file did not shrink.
pub open spec fn saving_in_words(before: u64, after: u64) -> Seq<char> {
    if before == 0 || after >= before {
        Seq::empty()
    } else {
        " ("@ + text::decimal(percent_saved(before, after)) + "% smaller)"@
    }
}

/// `num / den` as a count of 2^-117, and what is left over, by long division.
fn long_division(num: u128, den: u128) -> (out: (u128, u128))
    requires
        1 <= den <= 0x2_0000_0000_0000_0000,
        num <= den,
    ensures
        out.0 * den + out.1 == num * WHOLE,
        out.1 < den,
        out.0 <= WHOLE,
{
    let mut quotient: u128 = if num == den {
        1
    } else {
        0
    };
    let mut rest: u128 = if num == den {
        0
    } else {
        num
    };
    let mut scale: u128 = 1;
    let mut i: u32 = 0;
    proof {
        vstd::arithmetic::power2::lemma2_to64();
        lemma_whole();
        assert(quotient * den + rest == num * scale) by (nonlinear_arith)
            requires
                scale == 1,
                (num == den && quotient == 1 && rest == 0) || (quotient == 0 && rest == num),
        ;
    }
    while i < 117
        invariant
            i <= 117,
            1 <= den <= 0x2_0000_0000_0000_0000,
            num <= den,
            rest < den,
            scale == vstd::arithmetic::power2::pow2(i as nat),
            1 <= scale <= WHOLE,
            WHOLE == vstd::arithmetic::power2::pow2(117),
            quotient <= scale,
            quotient * den + rest == num * scale,
        decreases 117 - i,
    {
        proof {
            vstd::arithmetic::power2::lemma_pow2_unfold((i + 1) as nat);
            if i + 1 < 117 {
                vstd::arithmetic::power2::lemma_pow2_strictly_increases((i + 1) as nat, 117);
            }
            assert(num * (2 * scale) == 2 * (num * scale)) by (nonlinear_arith);
            assert((2 * quotient) * den == 2 * (quotient * den)) by (nonlinear_arith);
            assert((2 * quotient + 1) * den == 2 * (quotient * den) + den) by (nonlinear_arith);
        }
        let ghost before = quotient;
        quotient = quotient * 2;
        rest = rest * 2;
        scale = scale * 2;
        if rest >= den {
            quotient = quotient + 1;
            rest = rest - den;
        }
        assert(quotient <= scale) by (nonlinear_arith)
            requires
                quotient * den + rest == num * scale,
                num <= den,
                den >= 1,
                rest >= 0,
                scale >= 0,
        ;
        i += 1;
    }
    (quotient, rest)
}

/// `num / den` rounded to 53 significant bits, as a count of 2^-117.
fn share_of(num: u128, den: u128) -> (share: u128)
    requires
        1 <= den <= 0x2_0000_0000_0000_0000,
        num <= den,
    ensures
        share == rounding::quotient((num * WHOLE) as nat, den as nat, 53),
        share <= 2 * WHOLE,
{
    proof {
        lemma_whole();
    }
    let (quotient, rest) = long_division(num, den);
    let ghost scaled = (num * WHOLE) as nat;
    let step: u128 = grain_of(quotient, 53);
    proof {
        assert(scaled == quotient * den + rest);
        vstd::arithmetic::div_mod::lemma_fundamental_div_mod_converse(
            scaled as int,
            den as int,
            quotient as int,
            rest as int,
        );
        rounding::lemma_grain(quotient as nat, 53);
    }
    let whole: u128 = quotient / step;
    let part: u128 = quotient % step;
    proof {
        lemma_split(scaled as int, den as int, quotient as int, rest as int, step as int);
    }
    let up = if part > step - part {
        true
    } else if part == step - part {
        rest > 0 || whole % 2 == 1
    } else if step == 1 {
        rest > den - rest || rest == den - rest && whole % 2 == 1
    } else {
        false
    };
    proof {
        let over = part * den + rest;
        let limit = den * step;
        assert(2 * (part * den) == (2 * part) * den) by (nonlinear_arith);
        if part > step - part {
            assert((2 * part) * den >= (step + 1) * den) by (nonlinear_arith)
                requires
                    2 * part >= step + 1,
                    den >= 1,
            ;
            assert((step + 1) * den == den * step + den) by (nonlinear_arith);
        } else if part == step - part {
            assert((2 * part) * den == den * step) by (nonlinear_arith)
                requires
                    2 * part == step,
            ;
            assert(2 * over == limit + 2 * rest);
        } else if step == 1 {
            assert(part == 0);
            assert(part * den == 0) by (nonlinear_arith)
                requires
                    part == 0,
            ;
            assert(limit == den) by (nonlinear_arith)
                requires
                    limit == den * step,
                    step == 1,
            ;
        } else {
            lemma_even(quotient as nat);
            assert(2 * part <= step - 2);
            assert((2 * part) * den <= (step - 2) * den) by (nonlinear_arith)
                requires
                    2 * part <= step - 2,
                    den >= 1,
            ;
            assert((step - 2) * den == den * step - 2 * den) by (nonlinear_arith);
        }
        assert(2 * over < limit || 2 * over == limit && whole % 2 == 0 <==> !up);
        assert(scaled / ((den * step) as nat) == whole);
        assert(scaled % ((den * step) as nat) == over);
        assert(rounding::half_even(scaled, (den * step) as nat) == (if up {
            whole + 1
        } else {
            whole as int
        }));
        rounding::lemma_half_even_fits(scaled, (den * step) as nat);
        assert(whole * step <= quotient) by (nonlinear_arith)
            requires
                whole == quotient / step,
                step >= 1,
        ;
        assert((whole + 1) * step == whole * step + step) by (nonlinear_arith);
    }
    if up {
        (whole + 1) * step
    } else {
        whole * step
    }
}

proof fn lemma_whole()
    ensures
        WHOLE == vstd::arithmetic::power2::pow2(117),
{
    vstd::arithmetic::power2::lemma2_to64();
    vstd::arithmetic::power2::lemma2_to64_rest();
    vstd::arithmetic::power2::lemma_pow2_adds(64, 53);
}

/// Dividing by a multiple divides what the division left.
proof fn lemma_split(n: int, den: int, quotient: int, rest: int, step: int)
    requires
        n == quotient * den + rest,
        0 <= rest < den,
        step >= 1,
        quotient >= 0,
    ensures
        den * step >= 1,
        n / (den * step) == quotient / step,
        n % (den * step) == (quotient % step) * den + rest,
{
    let whole = quotient / step;
    let part = quotient % step;
    vstd::arithmetic::div_mod::lemma_fundamental_div_mod(quotient, step);
    assert(den * step >= 1) by (nonlinear_arith)
        requires
            den >= 1,
            step >= 1,
    ;
    assert(n == whole * (den * step) + (part * den + rest)) by (nonlinear_arith)
        requires
            n == quotient * den + rest,
            quotient == step * whole + part,
    ;
    assert(0 <= part * den + rest < den * step) by (nonlinear_arith)
        requires
            0 <= part <= step - 1,
            0 <= rest < den,
    ;
    vstd::arithmetic::div_mod::lemma_fundamental_div_mod_converse(
        n,
        den * step,
        whole,
        part * den + rest,
    );
}

/// A spacing above one is even.
proof fn lemma_even(n: nat)
    ensures
        rounding::grain(n, 53) == 1 || rounding::grain(n, 53) % 2 == 0,
{
}

pub fn saving(before: u64, after: u64) -> (words: String)
    ensures
        words@ == saving_in_words(before, after),
{
    if before == 0 || after >= before {
        return String::new();
    }
    let old_size: u128 = count(before);
    let new_size: u128 = count(after);
    proof {
        rounding::lemma_significant_in_order(after as nat, before as nat, 53);
        if before >= 0x20_0000_0000_0000 {
            assert(old_size >= 1);
        }
    }
    let share: u128 = share_of(new_size, old_size);
    let kept: u128 = significant_of(share * 100, 53);
    let whole: u128 = 100 * WHOLE;
    let percent: u128 = if kept >= whole {
        0
    } else {
        proof {
            let n = (whole - kept) as nat;
            rounding::lemma_grain(n, 53);
            rounding::lemma_half_even_fits(n, rounding::grain(n, 53));
        }
        half_even_of(significant_of(whole - kept, 53), WHOLE)
    };
    proof {
        assert(percent <= 201) by {
            if kept < whole {
                let n = (whole - kept) as nat;
                let r = rounding::significant(n, 53);
                assert(r <= 2 * whole);
                assert(r / (WHOLE as nat) <= 200) by (nonlinear_arith)
                    requires
                        r <= 200 * WHOLE,
                        WHOLE > 0,
                ;
            }
        }
    }
    let mut words = " (".to_owned();
    words.append(to_decimal(percent as u64).as_str());
    words.append("% smaller)");
    words
}

/// A saving is claimed exactly when the file shrank.
pub proof fn law_only_a_smaller_file_is_a_saving(before: u64, after: u64)
    ensures
        saving_in_words(before, after).len() > 0 <==> before > 0 && after < before,
{
    reveal_strlit(" (");
}

/// Sizes are told in the largest unit that they fill, 1024 to the next, with one decimal for
/// kilobytes and megabytes and two for gigabytes, each the nearest.
pub proof fn law_sizes_are_told_in_their_unit(bytes: u64) -> (count: nat)
    requires
        bytes < 0x20_0000_0000_0000,
    ensures
        bytes < 1024 ==> size_in_words(bytes) == text::decimal(bytes as nat) + " B"@,
        1024 <= bytes < 1024 * 1024 ==> {
            &&& size_in_words(bytes) == text::decimal(count / 10) + "."@ + text::decimal(count % 10)
                + " KB"@
            &&& -1024 <= 2 * (count * 1024 - 10 * bytes) <= 1024
        },
        1024 * 1024 <= bytes < 1024 * 1024 * 1024 ==> {
            &&& size_in_words(bytes) == text::decimal(count / 10) + "."@ + text::decimal(count % 10)
                + " MB"@
            &&& -1048576 <= 2 * (count * 1048576 - 10 * bytes) <= 1048576
        },
        bytes >= 1024 * 1024 * 1024 ==> {
            &&& size_in_words(bytes) == text::decimal(count / 100) + "."@ + text::decimal(
                count / 10 % 10,
            ) + text::decimal(count % 10) + " GB"@
            &&& -1073741824 <= 2 * (count * 1073741824 - 100 * bytes) <= 1073741824
        },
{
    lemma_counted(bytes);
    let n = bytes as nat;
    if bytes < 1024 * 1024 {
        rounding::lemma_half_even_fits(n * 10, 1024);
        rounding::half_even(n * 10, 1024)
    } else if bytes < 1024 * 1024 * 1024 {
        rounding::lemma_half_even_fits(n * 10, 1048576);
        rounding::half_even(n * 10, 1048576)
    } else {
        rounding::lemma_half_even_fits(n * 100, 1073741824);
        rounding::half_even(n * 100, 1073741824)
    }
}

/// What a conversion reports of a file is as short: bytes, kilobytes with one decimal, and
/// megabytes with two.
pub proof fn law_conversions_are_told_in_their_unit(bytes: u64) -> (count: nat)
    requires
        bytes < 0x20_0000_0000_0000,
    ensures
        bytes < 1024 ==> bytes_in_words(bytes) == text::decimal(bytes as nat) + "B"@,
        1024 <= bytes < 1024 * 1024 ==> {
            &&& bytes_in_words(bytes) == text::decimal(count / 10) + "."@ + text::decimal(
                count % 10,
            ) + "KB"@
            &&& -1024 <= 2 * (count * 1024 - 10 * bytes) <= 1024
        },
        bytes >= 1024 * 1024 ==> {
            &&& bytes_in_words(bytes) == text::decimal(count / 100) + "."@ + text::decimal(
                count / 10 % 10,
            ) + text::decimal(count % 10) + "MB"@
            &&& -1048576 <= 2 * (count * 1048576 - 100 * bytes) <= 1048576
        },
{
    lemma_counted(bytes);
    let n = bytes as nat;
    if bytes < 1024 * 1024 {
        rounding::lemma_half_even_fits(n * 10, 1024);
        rounding::half_even(n * 10, 1024)
    } else {
        rounding::lemma_half_even_fits(n * 100, 1048576);
        rounding::half_even(n * 100, 1048576)
    }
}

proof fn lemma_counted(bytes: u64)
    requires
        bytes < 0x20_0000_0000_0000,
    ensures
        counted(bytes) == bytes,
{
    vstd::arithmetic::power2::lemma2_to64_rest();
    assert(rounding::grain(bytes as nat, 53) == 1);
    assert(rounding::half_even(bytes as nat, 1) == bytes);
}

/// The saving is told as the nearest percentage of what the file was.
pub proof fn law_a_saving_is_its_percentage(before: u64, after: u64)
    requires
        0 < before < 0x20_0000_0000_0000,
        after < before,
    ensures
        saving_in_words(before, after) == " ("@ + text::decimal(percent_saved(before, after))
            + "% smaller)"@,
        -1001 * before <= 2000 * (percent_saved(before, after) * before - 100 * (before - after))
            <= 1001 * before,
{
    lemma_counted(before);
    lemma_counted(after);
    let whole: int = WHOLE as int;
    let num = (after * WHOLE) as nat;
    let share = rounding::quotient(num, before as nat, 53);
    let step = rounding::lemma_quotient_near(num, before as nat);
    assert(num as int / before as int <= whole) by (nonlinear_arith)
        requires
            num == after * whole,
            0 <= after < before,
            whole >= 0,
    ;
    assert(step <= 0x2_0000_0000_0000_0000);
    let e = share * before - after * whole;
    assert(-(before * 0x1_0000_0000_0000_0000) <= e <= before * 0x1_0000_0000_0000_0000)
        by (nonlinear_arith)
        requires
            -(before * step) <= 2 * e <= before * step,
            0 <= step <= 0x2_0000_0000_0000_0000,
            before >= 1,
    ;
    assert(share <= 2 * whole) by (nonlinear_arith)
        requires
            share * before == after * whole + e,
            e <= before * 0x1_0000_0000_0000_0000,
            after < before,
            whole >= 0x1_0000_0000_0000_0000,
            before >= 1,
    ;
    let kept = rounding::significant(share * 100, 53);
    rounding::lemma_significant_near(share * 100);
    let left = 100 * whole - kept;
    let p = percent_saved(before, after);
    let tiny: int = 0x100_0000_0000_0000_0000_0000;
    assert(-tiny <= kept - 100 * share <= tiny);
    assert(share <= whole + 0x1_0000_0000_0000_0000) by (nonlinear_arith)
        requires
            share * before == after * whole + e,
            e <= before * 0x1_0000_0000_0000_0000,
            after < before,
            whole >= 0,
            before >= 1,
    ;
    let f = p * whole - (100 * whole - 100 * share);
    if left <= 0 {
        assert(p == 0);
        assert(100 * share >= 100 * whole - tiny);
    } else {
        let rest = rounding::significant(left as nat, 53);
        rounding::lemma_significant_near(left as nat);
        rounding::lemma_half_even_fits(rest, WHOLE as nat);
        assert(p == rounding::half_even(rest, WHOLE as nat));
        assert(-tiny <= rest - left <= tiny);
    }
    assert(-(whole + 4 * tiny) <= 2 * f <= whole + 4 * tiny);
    assert(whole * (p * before - 100 * (before - after)) == before * f - 100 * e) by (nonlinear_arith)
        requires
            f == p * whole - (100 * whole - 100 * share),
            e == share * before - after * whole,
    ;
    assert(-(before * (whole + 4 * tiny)) <= 2 * (before * f) <= before * (whole + 4 * tiny))
        by (nonlinear_arith)
        requires
            -(whole + 4 * tiny) <= 2 * f <= whole + 4 * tiny,
            before >= 1,
    ;
    assert(before * (whole + 4 * tiny) == whole * before + 4 * (tiny * before)) by (nonlinear_arith);
}

} // verus!
