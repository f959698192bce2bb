//! Session log file naming: UTC timestamps in ISO 8601 form, computed from
//! seconds since the Unix epoch (proleptic Gregorian calendar, no leap
//! seconds).

use vstd::prelude::*;
use crate::text::{decimal_padded, push_decimal_padded};

verus! {

pub open spec fn is_leap(y: int) -> bool {
    y % 4 == 0 && (y % 100 != 0 || y % 400 == 0)
}

pub open spec fn year_days(y: int) -> nat {
    if is_leap(y) {
        366
    } else {
        365
    }
}

/// Days from 1970-01-01 to January 1st of year `y` (`y` from 1970).
pub open spec fn days_before_year(y: int) -> nat
    decreases y - 1970,
{
    if y <= 1970 {
        0
    } else {
        days_before_year(y - 1) + year_days(y - 1)
    }
}

/// Days in month `m` (0 = January) of year `y`.
pub open spec fn month_days(y: int, m: int) -> nat {
    if m == 1 {
        if is_leap(y) { 29 } else { 28 }
    } else if m == 3 || m == 5 || m == 8 || m == 10 {
        30
    } else {
        31
    }
}

/// Days from January 1st to the first of month `m` (0-based) of year `y`.
pub open spec fn days_before_month(y: int, m: int) -> nat
    decreases m,
{
    if m <= 0 {
        0
    } else {
        days_before_month(y, m - 1) + month_days(y, m - 1)
    }
}

/// `(year, month 0-11, day 0-based)` is the date `days` days after
/// 1970-01-01.
pub open spec fn is_civil_date(days: nat, y: int, m: int, d: int) -> bool {
    &&& y >= 1970
    &&& days_before_year(y) <= days < days_before_year(y + 1)
    &&& 0 <= m < 12
    &&& days_before_month(y, m) <= days - days_before_year(y) < days_before_month(y, m + 1)
    &&& d == days - days_before_year(y) - days_before_month(y, m)
}

proof fn lemma_days_before_year_mono(a: int, b: int)
    requires
        1970 <= a <= b,
    ensures
        days_before_year(a) <= days_before_year(b),
        a < b ==> days_before_year(a + 1) <= days_before_year(b),
    decreases b - a,
{
    if a < b {
        lemma_days_before_year_mono(a, b - 1);
    }
}

proof fn lemma_days_before_month_mono(y: int, a: int, b: int)
    requires
        0 <= a <= b,
    ensures
        days_before_month(y, a) <= days_before_month(y, b),
        a < b ==> days_before_month(y, a + 1) <= days_before_month(y, b),
    decreases b - a,
{
    if a < b {
        lemma_days_before_month_mono(y, a, b - 1);
    }
}

/// One date per day count.
pub proof fn lemma_civil_date_unique(days: nat, y1: int, m1: int, d1: int, y2: int, m2: int, d2: int)
    requires
        is_civil_date(days, y1, m1, d1),
        is_civil_date(days, y2, m2, d2),
    ensures
        y1 == y2 && m1 == m2 && d1 == d2,
{
    if y1 < y2 {
        lemma_days_before_year_mono(y1, y2);
    } else if y2 < y1 {
        lemma_days_before_year_mono(y2, y1);
    }
    if m1 < m2 {
        lemma_days_before_month_mono(y1, m1, m2);
    } else if m2 < m1 {
        lemma_days_before_month_mono(y1, m2, m1);
    }
}

/// The date `days` days after 1970-01-01 as (year, month 1-12, day 1-31).
pub fn civil_from_days(days: u64) -> (r: (u64, u64, u64))
    ensures
        is_civil_date(days as nat, r.0 as int, r.1 - 1, r.2 - 1),
        1 <= r.1 <= 12,
{
    let mut y: u64 = 1970;
    let mut remaining: u64 = days;
    let ghost mut before: nat = 0;
    loop
        invariant
            1970 <= y,
            (y - 1970) * 365 <= days - remaining,
            remaining <= days,
            before == days_before_year(y as int),
            before + remaining == days,
        ensures
            1970 <= y,
            before == days_before_year(y as int),
            before + remaining == days,
            remaining < year_days(y as int),
        decreases remaining,
    {
        let leap = y % 4 == 0 && (y % 100 != 0 || y % 400 == 0);
        assert(leap == is_leap(y as int));
        let in_year: u64 = if leap {
            366
        } else {
            365
        };
        if remaining < in_year {
            break;
        }
        remaining = remaining - in_year;
        proof {
            before = before + in_year as nat;
        }
        y = y + 1;
    }
    let leap = y % 4 == 0 && (y % 100 != 0 || y % 400 == 0);
    assert(leap == is_leap(y as int));
    let mut m: u64 = 0;
    let ghost year_start = before;
    let ghost r0: nat = remaining as nat;
    let ghost mut mbefore: nat = 0;
    proof {
        assert(days_before_month(y as int, 12) == year_days(y as int)) by {
            reveal_with_fuel(days_before_month, 13);
        }
    }
    loop
        invariant
            m < 12,
            year_start == days_before_year(y as int),
            year_start + r0 == days,
            r0 < year_days(y as int),
            days_before_month(y as int, 12) == year_days(y as int),
            leap == is_leap(y as int),
            mbefore == days_before_month(y as int, m as int),
            remaining + mbefore == r0,
        ensures
            m < 12,
            mbefore == days_before_month(y as int, m as int),
            remaining + mbefore == r0,
            remaining < month_days(y as int, m as int),
        decreases 12 - m,
    {
        let md: u64 = if m == 1 {
            if leap {
                29
            } else {
                28
            }
        } else if m == 3 || m == 5 || m == 8 || m == 10 {
            30
        } else {
            31
        };
        assert(md == month_days(y as int, m as int));
        if remaining < md {
            break;
        }
        remaining = remaining - md;
        proof {
            mbefore = mbefore + md as nat;
            if m + 1 >= 12 {
                lemma_days_before_month_mono(y as int, 12, m + 1);
            }
        }
        m = m + 1;
    }
    (y, m + 1, remaining + 1)
}

/// "YYYY-MM-DDTHH:MM:SSZ" for `secs` seconds after the epoch (the year at
/// least four digits).
pub open spec fn timestamp_spec(secs: u64, y: int, m: int, d: int) -> Seq<char> {
    let tod = secs % 86400;
    decimal_padded(y as nat, 4) + seq!['-'] + decimal_padded((m + 1) as nat, 2) + seq!['-']
        + decimal_padded((d + 1) as nat, 2) + seq!['T'] + decimal_padded((tod / 3600) as nat, 2) + seq![':']
        + decimal_padded(((tod % 3600) / 60) as nat, 2) + seq![':'] + decimal_padded((tod % 60) as nat, 2)
        + seq!['Z']
}

/// The UTC timestamp of `secs` seconds after the epoch, e.g.
/// "2026-04-09T12:00:00Z".
pub fn timestamp_from_secs(secs: u64) -> (r: String)
    ensures
        exists|y: int, m: int, d: int|
            is_civil_date((secs / 86400) as nat, y, m, d) && r@ == timestamp_spec(secs, y, m, d),
{
    let days = secs / 86400;
    let tod = secs % 86400;
    let (y, m, d) = civil_from_days(days);
    let mut s = String::new();
    push_decimal_padded(&mut s, y, 4);
    s.append("-");
    push_decimal_padded(&mut s, m, 2);
    s.append("-");
    push_decimal_padded(&mut s, d, 2);
    s.append("T");
    push_decimal_padded(&mut s, tod / 3600, 2);
    s.append(":");
    push_decimal_padded(&mut s, (tod % 3600) / 60, 2);
    s.append(":");
    push_decimal_padded(&mut s, tod % 60, 2);
    s.append("Z");
    proof {
        reveal_strlit("-");
        reveal_strlit("T");
        reveal_strlit(":");
        reveal_strlit("Z");
        assert(s@ =~= timestamp_spec(secs, y as int, m - 1, d - 1));
    }
    s
}

/// Whole seconds in `us` microseconds.
pub open spec fn whole_secs(us: u64) -> u64 {
    us / 1_000_000
}

/// Seconds since the Unix epoch from the system clock, 0 before it: the
/// microsecond reading, in whole seconds.
fn clock_secs() -> (r: u64)
    ensures
        exists|us: u64| r == #[trigger] whole_secs(us),
{
    let us = crate::metrics::latency::clock_us();
    assert(us / 1_000_000 == whole_secs(us));
    us / 1_000_000
}

/// The current UTC timestamp.
pub fn chrono_timestamp() -> (r: String)
    ensures
        exists|secs: u64, y: int, m: int, d: int|
            is_civil_date((secs / 86400) as nat, y, m, d) && r@ == timestamp_spec(secs, y, m, d),
{
    timestamp_from_secs(clock_secs())
}

/// The part of a timestamp before its first '.', with ':' written '-' and
/// 'T' written '_' (so it can stand in a file name).
pub open spec fn file_stem_spec(ts: Seq<char>) -> Seq<char>
    decreases ts.len(),
{
    if ts.len() == 0 || ts[0] == '.' {
        Seq::empty()
    } else {
        let c = if ts[0] == ':' {
            '-'
        } else if ts[0] == 'T' {
            '_'
        } else {
            ts[0]
        };
        seq![c] + file_stem_spec(ts.drop_first())
    }
}

proof fn lemma_file_stem_step(ts: Seq<char>, i: int)
    requires
        0 <= i < ts.len(),
        forall|k: int| 0 <= k < i ==> ts[k] != '.',
    ensures
        ts[i] != '.' ==> file_stem_spec(ts) == file_stem_spec(ts.subrange(0, i)) + file_stem_spec(
            ts.subrange(i, i + 1),
        ) + file_stem_spec(ts.subrange(i + 1, ts.len() as int)),
        file_stem_spec(ts.subrange(0, i)) + file_stem_spec(ts.subrange(i, ts.len() as int)) == file_stem_spec(ts),
    decreases i,
{
    if i == 0 {
        assert(ts.subrange(0, 0) =~= Seq::<char>::empty());
        assert(ts.subrange(0, ts.len() as int) =~= ts);
        if ts[0] != '.' {
            assert(ts.subrange(0, 1).drop_first() =~= Seq::<char>::empty());
            assert(ts.drop_first() =~= ts.subrange(1, ts.len() as int));
            assert(file_stem_spec(ts.subrange(0, 1)) =~= seq![file_stem_spec(ts)[0]]);
        }
    } else {
        let t = ts.drop_first();
        assert forall|k: int| 0 <= k < i - 1 implies t[k] != '.' by {
            assert(t[k] == ts[k + 1]);
        }
        lemma_file_stem_step(t, i - 1);
        assert(ts.subrange(0, i).drop_first() =~= t.subrange(0, i - 1));
        assert(t.subrange(i - 1, i) =~= ts.subrange(i, i + 1));
        assert(t.subrange(i, t.len() as int) =~= ts.subrange(i + 1, ts.len() as int));
        assert(t.subrange(i - 1, t.len() as int) =~= ts.subrange(i, ts.len() as int));
        assert(ts.subrange(0, i)[0] == ts[0]);
    }
}

/// "session_<stem>.jsonl", the stem taken from a timestamp by
/// `file_stem_spec`.
pub open spec fn session_file_name_spec(ts: Seq<char>) -> Seq<char> {
    "session_"@ + file_stem_spec(ts) + ".jsonl"@
}

/// The name of a session log file started at timestamp `ts`, e.g.
/// "session_2026-04-09_12-00-00.jsonl" for "2026-04-09T12:00:00Z".
pub fn session_file_name(ts: &str) -> (r: String)
    ensures
        r@ == session_file_name_spec(ts@),
{
    let n = ts.unicode_len();
    let mut out = String::from_str("session_");
    let mut i: usize = 0;
    let mut stopped = false;
    while i < n && !stopped
        invariant
            n == ts@.len(),
            i <= n,
            forall|k: int| 0 <= k < i ==> ts@[k] != '.',
            !stopped ==> out@ == "session_"@ + file_stem_spec(ts@.subrange(0, i as int)),
            stopped ==> out@ == "session_"@ + file_stem_spec(ts@),
        decreases (n - i) + if stopped { 0int } else { 1int },
    {
        let c = ts.get_char(i);
        proof {
            lemma_file_stem_step(ts@, i as int);
        }
        if c == '.' {
            proof {
                assert(file_stem_spec(ts@.subrange(i as int, n as int)) =~= Seq::<char>::empty()) by {
                    assert(ts@.subrange(i as int, n as int)[0] == '.');
                }
                assert(file_stem_spec(ts@.subrange(0, i as int)) + Seq::<char>::empty() =~= file_stem_spec(ts@.subrange(0, i as int)));
            }
            stopped = true;
        } else {
            let piece = ts.substring_char(i, i + 1);
            let ghost before = out@;
            if c == ':' {
                out.append("-");
            } else if c == 'T' {
                out.append("_");
            } else {
                out.append(piece);
            }
            proof {
                reveal_strlit("-");
                reveal_strlit("_");
                let one = ts@.subrange(i as int, i + 1);
                assert(one.drop_first() =~= Seq::<char>::empty());
                assert(one[0] == c);
                lemma_file_stem_step(ts@.subrange(0, i + 1), i as int);
                assert(ts@.subrange(0, i + 1).subrange(0, i as int) =~= ts@.subrange(0, i as int));
                assert(ts@.subrange(0, i + 1).subrange(i as int, i + 1) =~= one);
                assert(ts@.subrange(0, i + 1).subrange(i + 1, i + 1) =~= Seq::<char>::empty());
                assert(forall|k: int| 0 <= k < i ==> ts@.subrange(0, i + 1)[k] == ts@[k]);
                assert(out@ =~= "session_"@ + file_stem_spec(ts@.subrange(0, i + 1)));
            }
            i = i + 1;
        }
    }
    if !stopped {
        proof {
            assert(ts@.subrange(0, n as int) =~= ts@);
        }
    }
    out.append(".jsonl");
    out
}

} // verus!
