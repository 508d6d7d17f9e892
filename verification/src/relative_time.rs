//! Compact "time ago" labels such as `5m ago` or `in 2d`.
use vstd::prelude::*;
use crate::text::{decimal_text, digit_char, push_decimal, push_str, string_from_chars};
use vstd::utf8::is_ascii_chars;

verus! {

/// Seconds in each unit of the compact labels, largest first.
pub const SECONDS_PER_YEAR: u64 = 31536000;
pub const SECONDS_PER_MONTH: u64 = 2592000;
pub const SECONDS_PER_WEEK: u64 = 604800;
pub const SECONDS_PER_DAY: u64 = 86400;
pub const SECONDS_PER_HOUR: u64 = 3600;
pub const SECONDS_PER_MINUTE: u64 = 60;

/// `count` units, in the past (`"3d ago"`) or in the future (`"in 3d"`).
pub open spec fn count_text(count: nat, unit: Seq<char>, past: bool) -> Seq<char> {
    if past {
        decimal_text(count) + unit + " ago"@
    } else {
        "in "@ + decimal_text(count) + unit
    }
}

/// The compact label of the instant `timestamp_ms` seen from `now_ms`
/// (both in milliseconds): the whole seconds between them, counted in the
/// largest unit that fits (years of 365 days, months of 30 days, weeks, days,
/// hours, minutes); under a minute it reads `0s ago`, or `in 0s` when the
/// instant lies at least a second ahead.
pub open spec fn relative_time_text(timestamp_ms: int, now_ms: int) -> Seq<char> {
    let diff = timestamp_ms - now_ms;
    let seconds = (if diff < 0 { -diff } else { diff }) / 1000;
    let past = diff < 0;
    if seconds >= SECONDS_PER_YEAR {
        count_text((seconds / SECONDS_PER_YEAR as int) as nat, "y"@, past)
    } else if seconds >= SECONDS_PER_MONTH {
        count_text((seconds / SECONDS_PER_MONTH as int) as nat, "mo"@, past)
    } else if seconds >= SECONDS_PER_WEEK {
        count_text((seconds / SECONDS_PER_WEEK as int) as nat, "w"@, past)
    } else if seconds >= SECONDS_PER_DAY {
        count_text((seconds / SECONDS_PER_DAY as int) as nat, "d"@, past)
    } else if seconds >= SECONDS_PER_HOUR {
        count_text((seconds / SECONDS_PER_HOUR as int) as nat, "h"@, past)
    } else if seconds >= SECONDS_PER_MINUTE {
        count_text((seconds / SECONDS_PER_MINUTE as int) as nat, "m"@, past)
    } else if diff < 1000 {
        "0s ago"@
    } else {
        "in 0s"@
    }
}

/// Ten to the power `k`.
pub open spec fn pow10(k: nat) -> nat
    decreases k,
{
    if k == 0 {
        1
    } else {
        10 * pow10((k - 1) as nat)
    }
}

/// The decimal text of a number below `10^k` is ASCII and has at most `k` digits.
pub proof fn lemma_decimal_text_short(n: nat, k: nat)
    requires
        k >= 1,
        n < pow10(k),
    ensures
        decimal_text(n).len() <= k,
        is_ascii_chars(decimal_text(n)),
    decreases n,
{
    if n >= 10 {
        let q = n / 10;
        let p = pow10((k - 1) as nat);
        assert(q < p) by (nonlinear_arith)
            requires
                n < 10 * p,
                q == n / 10,
        ;
        if k == 1 {
            assert(pow10(0) == 1);
        }
        lemma_decimal_text_short(q, (k - 1) as nat);
        let t = decimal_text(n);
        assert(t == decimal_text(q).push(digit_char(n % 10)));
        assert forall|i: int| 0 <= i < t.len() implies '\0' <= #[trigger] t[i] <= '\u{7f}' by {
            if i < t.len() - 1 {
                assert(t[i] == decimal_text(q)[i]);
            }
        }
    }
}

/// A count of a unit of at most two ASCII characters reads in at most 32 ASCII characters.
proof fn lemma_count_text_short(count: nat, unit: Seq<char>, past: bool)
    requires
        count < pow10(20),
        is_ascii_chars(unit),
        unit.len() <= 2,
    ensures
        is_ascii_chars(count_text(count, unit, past)),
        count_text(count, unit, past).len() <= 32,
{
    reveal_strlit(" ago");
    reveal_strlit("in ");
    lemma_decimal_text_short(count, 20);
    let d = decimal_text(count);
    let t = count_text(count, unit, past);
    if past {
        assert forall|i: int| 0 <= i < t.len() implies '\0' <= #[trigger] t[i] <= '\u{7f}' by {
            if i < d.len() {
                assert(t[i] == d[i]);
            } else if i < d.len() + unit.len() {
                assert(t[i] == unit[i - d.len()]);
            } else {
                assert(t[i] == " ago"@[i - d.len() - unit.len()]);
            }
        }
    } else {
        assert forall|i: int| 0 <= i < t.len() implies '\0' <= #[trigger] t[i] <= '\u{7f}' by {
            if i < 3 {
                assert(t[i] == "in "@[i]);
            } else if i < 3 + d.len() {
                assert(t[i] == d[i - 3]);
            } else {
                assert(t[i] == unit[i - 3 - d.len()]);
            }
        }
    }
}

/// A compact label is ASCII and at most 32 characters long.
pub proof fn lemma_relative_time_text_short(timestamp_ms: i64, now_ms: i64)
    ensures
        is_ascii_chars(relative_time_text(timestamp_ms as int, now_ms as int)),
        relative_time_text(timestamp_ms as int, now_ms as int).len() <= 32,
{
    reveal_strlit("y");
    reveal_strlit("mo");
    reveal_strlit("w");
    reveal_strlit("d");
    reveal_strlit("h");
    reveal_strlit("m");
    reveal_strlit("0s ago");
    reveal_strlit("in 0s");
    let diff = timestamp_ms - now_ms;
    let seconds = (if diff < 0 { -diff } else { diff }) / 1000;
    assert(pow10(20) == 100000000000000000000) by {
        reveal_with_fuel(pow10, 21);
    }
    let past = diff < 0;
    let t = relative_time_text(timestamp_ms as int, now_ms as int);
    if seconds >= SECONDS_PER_YEAR {
        lemma_count_text_short((seconds / SECONDS_PER_YEAR as int) as nat, "y"@, past);
    } else if seconds >= SECONDS_PER_MONTH {
        lemma_count_text_short((seconds / SECONDS_PER_MONTH as int) as nat, "mo"@, past);
    } else if seconds >= SECONDS_PER_WEEK {
        lemma_count_text_short((seconds / SECONDS_PER_WEEK as int) as nat, "w"@, past);
    } else if seconds >= SECONDS_PER_DAY {
        lemma_count_text_short((seconds / SECONDS_PER_DAY as int) as nat, "d"@, past);
    } else if seconds >= SECONDS_PER_HOUR {
        lemma_count_text_short((seconds / SECONDS_PER_HOUR as int) as nat, "h"@, past);
    } else if seconds >= SECONDS_PER_MINUTE {
        lemma_count_text_short((seconds / SECONDS_PER_MINUTE as int) as nat, "m"@, past);
    } else {
        assert(forall|i: int| 0 <= i < t.len() ==> '\0' <= #[trigger] t[i] <= '\u{7f}');
    }
}

/// The label counts whole units: when the whole seconds between the two
/// instants are at least one unit and less than the next larger unit, and
/// `count` units fit in them but `count + 1` do not, the label is `count`
/// followed by the unit's letters, with ` ago` for an instant in the past and
/// `in ` before it for one in the future. Under a minute it is `0s ago`, or
/// `in 0s` for an instant at least a second ahead.
pub proof fn lemma_relative_time_counts_whole_units(timestamp_ms: int, now_ms: int, count: nat)
    ensures
        ({
            let diff = timestamp_ms - now_ms;
            let seconds = (if diff < 0 { -diff } else { diff }) / 1000;
            let text = relative_time_text(timestamp_ms, now_ms);
            (SECONDS_PER_YEAR <= seconds && count * SECONDS_PER_YEAR <= seconds < (count + 1) * SECONDS_PER_YEAR) ==> text == (if diff < 0 {
                decimal_text(count) + "y"@ + " ago"@
            } else {
                "in "@ + decimal_text(count) + "y"@
            })
        }),
        ({
            let diff = timestamp_ms - now_ms;
            let seconds = (if diff < 0 { -diff } else { diff }) / 1000;
            let text = relative_time_text(timestamp_ms, now_ms);
            (SECONDS_PER_MONTH <= seconds < SECONDS_PER_YEAR && count * SECONDS_PER_MONTH <= seconds < (count + 1) * SECONDS_PER_MONTH) ==> text == (if diff < 0 {
                decimal_text(count) + "mo"@ + " ago"@
            } else {
                "in "@ + decimal_text(count) + "mo"@
            })
        }),
        ({
            let diff = timestamp_ms - now_ms;
            let seconds = (if diff < 0 { -diff } else { diff }) / 1000;
            let text = relative_time_text(timestamp_ms, now_ms);
            (SECONDS_PER_WEEK <= seconds < SECONDS_PER_MONTH && count * SECONDS_PER_WEEK <= seconds < (count + 1) * SECONDS_PER_WEEK) ==> text == (if diff < 0 {
                decimal_text(count) + "w"@ + " ago"@
            } else {
                "in "@ + decimal_text(count) + "w"@
            })
        }),
        ({
            let diff = timestamp_ms - now_ms;
            let seconds = (if diff < 0 { -diff } else { diff }) / 1000;
            let text = relative_time_text(timestamp_ms, now_ms);
            (SECONDS_PER_DAY <= seconds < SECONDS_PER_WEEK && count * SECONDS_PER_DAY <= seconds < (count + 1) * SECONDS_PER_DAY) ==> text == (if diff < 0 {
                decimal_text(count) + "d"@ + " ago"@
            } else {
                "in "@ + decimal_text(count) + "d"@
            })
        }),
        ({
            let diff = timestamp_ms - now_ms;
            let seconds = (if diff < 0 { -diff } else { diff }) / 1000;
            let text = relative_time_text(timestamp_ms, now_ms);
            (SECONDS_PER_HOUR <= seconds < SECONDS_PER_DAY && count * SECONDS_PER_HOUR <= seconds < (count + 1) * SECONDS_PER_HOUR) ==> text == (if diff < 0 {
                decimal_text(count) + "h"@ + " ago"@
            } else {
                "in "@ + decimal_text(count) + "h"@
            })
        }),
        ({
            let diff = timestamp_ms - now_ms;
            let seconds = (if diff < 0 { -diff } else { diff }) / 1000;
            let text = relative_time_text(timestamp_ms, now_ms);
            (SECONDS_PER_MINUTE <= seconds < SECONDS_PER_HOUR && count * SECONDS_PER_MINUTE <= seconds < (count + 1) * SECONDS_PER_MINUTE) ==> text == (if diff < 0 {
                decimal_text(count) + "m"@ + " ago"@
            } else {
                "in "@ + decimal_text(count) + "m"@
            })
        }),
        ({
            let diff = timestamp_ms - now_ms;
            let seconds = (if diff < 0 { -diff } else { diff }) / 1000;
            let text = relative_time_text(timestamp_ms, now_ms);
            (seconds < SECONDS_PER_MINUTE && diff < 1000) ==> text == "0s ago"@
        }),
        ({
            let diff = timestamp_ms - now_ms;
            let seconds = (if diff < 0 { -diff } else { diff }) / 1000;
            let text = relative_time_text(timestamp_ms, now_ms);
            (seconds < SECONDS_PER_MINUTE && diff >= 1000) ==> text == "in 0s"@
        }),
{
    let diff = timestamp_ms - now_ms;
    let seconds = (if diff < 0 { -diff } else { diff }) / 1000;
    assert(seconds >= 0);
    if count * SECONDS_PER_YEAR <= seconds < (count + 1) * SECONDS_PER_YEAR {
        assert(seconds / (SECONDS_PER_YEAR as int) == count) by (nonlinear_arith)
            requires
                count * SECONDS_PER_YEAR <= seconds,
                seconds < (count + 1) * SECONDS_PER_YEAR,
                SECONDS_PER_YEAR > 0,
        ;
    }
    if count * SECONDS_PER_MONTH <= seconds < (count + 1) * SECONDS_PER_MONTH {
        assert(seconds / (SECONDS_PER_MONTH as int) == count) by (nonlinear_arith)
            requires
                count * SECONDS_PER_MONTH <= seconds,
                seconds < (count + 1) * SECONDS_PER_MONTH,
                SECONDS_PER_MONTH > 0,
        ;
    }
    if count * SECONDS_PER_WEEK <= seconds < (count + 1) * SECONDS_PER_WEEK {
        assert(seconds / (SECONDS_PER_WEEK as int) == count) by (nonlinear_arith)
            requires
                count * SECONDS_PER_WEEK <= seconds,
                seconds < (count + 1) * SECONDS_PER_WEEK,
                SECONDS_PER_WEEK > 0,
        ;
    }
    if count * SECONDS_PER_DAY <= seconds < (count + 1) * SECONDS_PER_DAY {
        assert(seconds / (SECONDS_PER_DAY as int) == count) by (nonlinear_arith)
            requires
                count * SECONDS_PER_DAY <= seconds,
                seconds < (count + 1) * SECONDS_PER_DAY,
                SECONDS_PER_DAY > 0,
        ;
    }
    if count * SECONDS_PER_HOUR <= seconds < (count + 1) * SECONDS_PER_HOUR {
        assert(seconds / (SECONDS_PER_HOUR as int) == count) by (nonlinear_arith)
            requires
                count * SECONDS_PER_HOUR <= seconds,
                seconds < (count + 1) * SECONDS_PER_HOUR,
                SECONDS_PER_HOUR > 0,
        ;
    }
    if count * SECONDS_PER_MINUTE <= seconds < (count + 1) * SECONDS_PER_MINUTE {
        assert(seconds / (SECONDS_PER_MINUTE as int) == count) by (nonlinear_arith)
            requires
                count * SECONDS_PER_MINUTE <= seconds,
                seconds < (count + 1) * SECONDS_PER_MINUTE,
                SECONDS_PER_MINUTE > 0,
        ;
    }
}

fn push_count(v: &mut Vec<char>, count: u64, unit: &str, past: bool)
    ensures
        final(v)@ == old(v)@ + count_text(count as nat, unit@, past),
{
    let ghost start = v@;
    if past {
        push_decimal(v, count);
        push_str(v, unit);
        push_str(v, " ago");
        assert(v@ =~= start + count_text(count as nat, unit@, past));
    } else {
        push_str(v, "in ");
        push_decimal(v, count);
        push_str(v, unit);
        assert(v@ =~= start + count_text(count as nat, unit@, past));
    }
}

/// Formats how long ago `timestamp_ms` was, seen from `now_ms`.
pub fn format_relative_time_ago_millis(timestamp_ms: i64, now_ms: i64) -> (r: String)
    ensures
        r@ == relative_time_text(timestamp_ms as int, now_ms as int),
{
    let diff: i128 = (timestamp_ms as i128) - (now_ms as i128);
    let past = diff < 0;
    let magnitude: i128 = if past {
        -diff
    } else {
        diff
    };
    let seconds: u64 = (magnitude / 1000) as u64;
    let mut v: Vec<char> = Vec::new();
    if seconds >= SECONDS_PER_YEAR {
        push_count(&mut v, seconds / SECONDS_PER_YEAR, "y", past);
    } else if seconds >= SECONDS_PER_MONTH {
        push_count(&mut v, seconds / SECONDS_PER_MONTH, "mo", past);
    } else if seconds >= SECONDS_PER_WEEK {
        push_count(&mut v, seconds / SECONDS_PER_WEEK, "w", past);
    } else if seconds >= SECONDS_PER_DAY {
        push_count(&mut v, seconds / SECONDS_PER_DAY, "d", past);
    } else if seconds >= SECONDS_PER_HOUR {
        push_count(&mut v, seconds / SECONDS_PER_HOUR, "h", past);
    } else if seconds >= SECONDS_PER_MINUTE {
        push_count(&mut v, seconds / SECONDS_PER_MINUTE, "m", past);
    } else if diff < 1000 {
        push_str(&mut v, "0s ago");
        assert(v@ =~= "0s ago"@);
    } else {
        push_str(&mut v, "in 0s");
        assert(v@ =~= "in 0s"@);
    }
    assert(v@ =~= relative_time_text(timestamp_ms as int, now_ms as int));
    string_from_chars(&v)
}

} // verus!
