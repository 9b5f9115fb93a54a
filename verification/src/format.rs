//! Text the window shows.

use vstd::prelude::*;

use crate::text;
use crate::time;
use crate::time::TICKS_PER_SECOND;

verus! {

/// Whole seconds as `H:MM:SS` when there are hours, else `M:SS`.
pub open spec fn clock_face(seconds: nat) -> Seq<char> {
    let h = seconds / 3600;
    let m = seconds % 3600 / 60;
    let s = seconds % 60;
    if h > 0 {
        text::decimal(h) + ":"@ + text::two_digits(m) + ":"@ + text::two_digits(s)
    } else {
        text::decimal(m) + ":"@ + text::two_digits(s)
    }
}

/// A count of millionths in whole ones: the nearest, an even one where two are
/// as near.
pub open spec fn nearest_whole(millionths: int) -> int {
    let whole = millionths / 1_000_000;
    let rest = millionths % 1_000_000;
    if rest > 500_000 || (rest == 500_000 && whole % 2 == 1) {
        whole + 1
    } else {
        whole
    }
}

/// A count of millionths in whole ones.
pub fn rounded(millionths: u64) -> (whole: u64)
    ensures
        whole == nearest_whole(millionths as int),
{
    let whole: u64 = millionths / 1_000_000;
    let rest: u64 = millionths % 1_000_000;
    if rest > 500_000 || (rest == 500_000 && whole % 2 == 1) {
        whole + 1
    } else {
        whole
    }
}

/// A time as a clock shows it: floored to whole seconds, `0:00` for anything
/// not positive, and saturated for absurd values.
pub open spec fn hms(ticks: int) -> Seq<char> {
    if ticks <= 0 {
        clock_face(0)
    } else {
        clock_face(time::smaller(ticks / (TICKS_PER_SECOND as int), u64::MAX as int) as nat)
    }
}

/// Appends whole seconds as a clock shows them.
pub fn push_clock_face(out: &mut String, seconds: u64)
    ensures
        final(out)@ == old(out)@ + clock_face(seconds as nat),
{
    let h: u64 = seconds / 3600;
    let m: u64 = seconds % 3600 / 60;
    let s: u64 = seconds % 60;
    if h > 0 {
        text::push_decimal(out, h);
        out.append(":");
        text::push_two_digits(out, m);
    } else {
        text::push_decimal(out, m);
    }
    out.append(":");
    text::push_two_digits(out, s);
    assert(out@ =~= old(out)@ + clock_face(seconds as nat));
}

/// Ticks as `H:MM:SS` when there are hours, else `M:SS`, floored; `0:00` for
/// anything not positive.
pub fn format_hms(ticks: i128) -> (shown: String)
    ensures
        shown@ == hms(ticks as int),
{
    let mut shown = String::new();
    let seconds: u64 = if ticks <= 0 {
        0
    } else if ticks / 3_000_000_000 > 0xffff_ffff_ffff_ffff {
        u64::MAX
    } else {
        (ticks / 3_000_000_000) as u64
    };
    push_clock_face(&mut shown, seconds);
    assert(shown@ =~= hms(ticks as int));
    shown
}

/// A time as a clock shows it, with the tenth of a second it is in.
pub open spec fn hms_tenths(ticks: int) -> Seq<char> {
    hms(ticks) + "."@ + text::decimal(
        if ticks <= 0 {
            0
        } else {
            (ticks % (TICKS_PER_SECOND as int) / 300_000_000) as nat
        },
    )
}

/// As [`format_hms`], with the tenth of a second, floored.
pub fn format_hms_tenths(ticks: i128) -> (shown: String)
    ensures
        shown@ == hms_tenths(ticks as int),
{
    let mut shown = format_hms(ticks);
    shown.append(".");
    let tenth: u64 = if ticks <= 0 {
        0
    } else {
        (ticks % 3_000_000_000 / 300_000_000) as u64
    };
    text::push_decimal(&mut shown, tenth);
    assert(shown@ =~= hms_tenths(ticks as int));
    shown
}

/// A message with its first character in uppercase.
pub open spec fn capitalized(message: Seq<char>) -> Seq<char> {
    if message.len() == 0 {
        message
    } else {
        text::uppercase(message[0]) + message.drop_first()
    }
}

/// `message` with `first` in place of its first character. An empty message
/// stays empty.
pub fn headed(first: &str, message: &str) -> (shown: String)
    ensures
        shown@ == if message@.len() == 0 {
            message@
        } else {
            first@ + message@.drop_first()
        },
{
    let chars = text::chars_of(message);
    if chars.len() == 0 {
        let shown = String::new();
        assert(shown@ =~= message@);
        return shown;
    }
    let mut shown = first.to_owned();
    let rest = text::text_of(&chars, 1, chars.len());
    shown.append(rest.as_str());
    assert(rest@ =~= message@.drop_first());
    shown
}

/// `message` with its first letter capitalized, for showing an error as a
/// sentence.
pub fn sentence(message: &str) -> (shown: String)
    ensures
        shown@ == capitalized(message@),
{
    let chars = text::chars_of(message);
    if chars.len() == 0 {
        return headed("", message);
    }
    let first = text::to_uppercase(chars[0]);
    headed(first.as_str(), message)
}

/// **A clock reads its hours, minutes and seconds**: the hours only where
/// there are any, the seconds and the minutes behind hours in two digits. A
/// part of a second is dropped, and tenths are those begun.
pub proof fn law_a_clock_reads_its_time(h: nat, m: nat, s: nat, rest: nat)
    requires
        m < 60,
        s < 60,
        rest < 3_000_000_000,
        h <= 5_000_000_000_000_000,
    ensures
        ({
            let ticks = (h * 3600 + m * 60 + s) * 3_000_000_000 + rest;
            let seconds = seq![text::digit((s / 10) as int), text::digit((s % 10) as int)];
            let minutes = seq![text::digit((m / 10) as int), text::digit((m % 10) as int)];
            &&& h == 0 ==> hms(ticks as int) == text::decimal(m) + ":"@ + seconds
            &&& h > 0 ==> hms(ticks as int) == text::decimal(h) + ":"@ + minutes + ":"@ + seconds
            &&& hms_tenths(ticks as int) == hms(ticks as int) + "."@ + seq![
                text::digit((rest / 300_000_000) as int),
            ]
        }),
        hms(-(rest as int)) == "0:00"@,
{
    let total = h * 3600 + m * 60 + s;
    let ticks = total * 3_000_000_000 + rest;
    assert(ticks / 3_000_000_000 == total);
    assert(ticks % 3_000_000_000 == rest);
    assert(total / 3600 == h);
    assert(total % 3600 == m * 60 + s);
    assert((m * 60 + s) / 60 == m);
    assert(total % 60 == s);
    if ticks == 0 {
        assert(total == 0);
    }
    let seconds = seq![text::digit((s / 10) as int), text::digit((s % 10) as int)];
    let minutes = seq![text::digit((m / 10) as int), text::digit((m % 10) as int)];
    reveal_with_fuel(text::decimal, 2);
    assert(text::two_digits(s) =~= seconds);
    assert(text::two_digits(m) =~= minutes);
    assert(text::decimal((rest / 300_000_000) as nat) =~= seq![
        text::digit((rest / 300_000_000) as int),
    ]);
    reveal_strlit("0:00");
    reveal_strlit(":");
    assert(hms(0) =~= "0:00"@);
}

/// **Rounding takes the nearest whole**, and the even one of two as near.
pub proof fn law_rounding_takes_the_nearest(millionths: int)
    requires
        millionths >= 0,
    ensures
        -500_000 <= nearest_whole(millionths) * 1_000_000 - millionths <= 500_000,
        nearest_whole(millionths) * 1_000_000 - millionths == 500_000 || millionths
            - nearest_whole(millionths) * 1_000_000 == 500_000 ==> nearest_whole(millionths) % 2
            == 0,
{
}

} // verus!
