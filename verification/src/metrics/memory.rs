//! Polling the process's resident memory and keeping an hourly baseline.

use vstd::prelude::*;
use crate::metrics::latency::clock_us;

verus! {

/// Microseconds in an hour.
pub const HOUR_US: u64 = 3_600_000_000;

/// Abstract state of a memory monitor.
pub struct MemoryView {
    pub poll_interval_secs: u32,
    pub growth_threshold_mb: u32,
    pub baseline_mb: Option<u64>,
    pub baseline_time_us: Option<u64>,
    pub last_poll_us: u64,
}

pub open spec fn since(earlier: u64, later: u64) -> nat {
    if later >= earlier {
        (later - earlier) as nat
    } else {
        0
    }
}

/// One poll at `now_us` that read `rss_mb` MB (0: the reading failed).
/// Before the poll interval has passed: nothing, state unchanged.
/// Otherwise the poll time is kept; a failed reading yields nothing; the
/// first reading becomes the baseline; a baseline an hour old is replaced.
pub open spec fn memory_check_step(v: MemoryView, now_us: u64, rss_mb: u64) -> (MemoryView, Option<u64>) {
    if since(v.last_poll_us, now_us) / 1_000_000 < v.poll_interval_secs {
        (v, None)
    } else {
        let polled = MemoryView { last_poll_us: now_us, ..v };
        if rss_mb == 0 {
            (polled, None)
        } else if v.baseline_mb is None {
            (MemoryView { baseline_mb: Some(rss_mb), baseline_time_us: Some(now_us), ..polled }, Some(rss_mb))
        } else if since(v.baseline_time_us.unwrap_or(now_us), now_us) >= HOUR_US {
            (MemoryView { baseline_mb: Some(rss_mb), baseline_time_us: Some(now_us), ..polled }, Some(rss_mb))
        } else {
            (polled, Some(rss_mb))
        }
    }
}

/// Process memory monitor: polls at most every `poll_interval_secs` and
/// keeps a baseline that is renewed every hour.
pub struct MemoryMonitor {
    poll_interval_secs: u32,
    growth_threshold_mb: u32,
    baseline_mb: Option<u64>,
    baseline_time_us: Option<u64>,
    last_poll_us: u64,
}

impl MemoryMonitor {
    pub closed spec fn view(&self) -> MemoryView {
        MemoryView {
            poll_interval_secs: self.poll_interval_secs,
            growth_threshold_mb: self.growth_threshold_mb,
            baseline_mb: self.baseline_mb,
            baseline_time_us: self.baseline_time_us,
            last_poll_us: self.last_poll_us,
        }
    }

    /// A monitor whose interval starts at `now_us`.
    pub fn new_at(poll_interval_secs: u32, growth_threshold_mb: u32, now_us: u64) -> (r: Self)
        ensures
            r.view() == (MemoryView {
                poll_interval_secs,
                growth_threshold_mb,
                baseline_mb: None,
                baseline_time_us: None,
                last_poll_us: now_us,
            }),
    {
        MemoryMonitor { poll_interval_secs, growth_threshold_mb, baseline_mb: None, baseline_time_us: None, last_poll_us: now_us }
    }

    /// A monitor whose interval starts now.
    pub fn new(poll_interval_secs: u32, growth_threshold_mb: u32) -> (r: Self)
        ensures
            r.view().poll_interval_secs == poll_interval_secs,
            r.view().growth_threshold_mb == growth_threshold_mb,
            r.view().baseline_mb is None,
    {
        Self::new_at(poll_interval_secs, growth_threshold_mb, clock_us())
    }

    /// Poll at `now_us` with the reading `rss_mb` (see `memory_check_step`).
    pub fn check_at(&mut self, now_us: u64, rss_mb: u64) -> (r: Option<u64>)
        ensures
            (final(self).view(), r) == memory_check_step(old(self).view(), now_us, rss_mb),
    {
        if now_us.saturating_sub(self.last_poll_us) / 1_000_000 < self.poll_interval_secs as u64 {
            return None;
        }
        self.last_poll_us = now_us;
        if rss_mb == 0 {
            return None;
        }
        match (self.baseline_mb, self.baseline_time_us) {
            (None, _) => {
                self.baseline_mb = Some(rss_mb);
                self.baseline_time_us = Some(now_us);
                return Some(rss_mb);
            },
            (Some(_), t) => {
                let start = match t {
                    Some(x) => x,
                    None => now_us,
                };
                if now_us.saturating_sub(start) >= HOUR_US {
                    self.baseline_mb = Some(rss_mb);
                    self.baseline_time_us = Some(now_us);
                }
            },
        }
        Some(rss_mb)
    }

    /// Poll now with the reading `rss_mb` taken by the caller.
    pub fn check(&mut self, rss_mb: u64) -> (r: Option<u64>)
        ensures
            exists|now_us: u64| (final(self).view(), r) == memory_check_step(old(self).view(), now_us, rss_mb),
    {
        self.check_at(clock_us(), rss_mb)
    }

    pub fn baseline_mb(&self) -> (r: Option<u64>)
        ensures
            r == self.view().baseline_mb,
    {
        self.baseline_mb
    }

    /// When the baseline was taken (clock microseconds), if it was.
    pub fn baseline_time_us(&self) -> (r: Option<u64>)
        ensures
            r == self.view().baseline_time_us,
    {
        self.baseline_time_us
    }

    pub fn growth_threshold_mb(&self) -> (r: u32)
        ensures
            r == self.view().growth_threshold_mb,
    {
        self.growth_threshold_mb
    }
}


/// Whether `c` is white space as `char::is_whitespace` has it (the Unicode
/// White_Space property).
pub open spec fn is_ws(c: char) -> bool {
    let u = c as u32;
    ||| 0x09 <= u <= 0x0D
    ||| u == 0x20
    ||| u == 0x85
    ||| u == 0xA0
    ||| u == 0x1680
    ||| 0x2000 <= u <= 0x200A
    ||| u == 0x2028
    ||| u == 0x2029
    ||| u == 0x202F
    ||| u == 0x205F
    ||| u == 0x3000
}

/// The first position from `j` on, before `end`, that is not white space
/// (`end` if none).
pub open spec fn skip_ws(s: Seq<char>, j: int, end: int) -> int
    decreases end - j,
{
    if j >= end || !is_ws(s[j]) {
        j
    } else {
        skip_ws(s, j + 1, end)
    }
}

/// The end of the word starting at `j`: the first white space before `end`
/// (`end` if none).
pub open spec fn skip_word(s: Seq<char>, j: int, end: int) -> int
    decreases end - j,
{
    if j >= end || is_ws(s[j]) {
        j
    } else {
        skip_word(s, j + 1, end)
    }
}

/// The end of the line starting at `i`: the next '\n' (or the end).
pub open spec fn line_end(s: Seq<char>, i: int) -> int
    decreases s.len() - i,
{
    if i >= s.len() || s[i] == '\n' {
        i
    } else {
        line_end(s, i + 1)
    }
}

pub open spec fn is_digit(c: char) -> bool {
    '0' as u32 <= c as u32 <= '9' as u32
}

pub open spec fn digits_value(d: Seq<char>) -> nat
    decreases d.len(),
{
    if d.len() == 0 {
        0
    } else {
        digits_value(d.drop_last()) * 10 + (d.last() as u32 - '0' as u32) as nat
    }
}

/// The characters after an optional leading '+'.
pub open spec fn unsigned_part(t: Seq<char>) -> Seq<char> {
    if t.len() > 0 && t[0] == '+' {
        t.drop_first()
    } else {
        t
    }
}

pub open spec fn all_digits(d: Seq<char>) -> bool {
    forall|k: int| 0 <= k < d.len() ==> is_digit(#[trigger] d[k])
}

/// `u64::from_str`: an optional '+', then one or more ASCII digits, the
/// value within `u64`.
pub open spec fn parse_u64_spec(t: Seq<char>) -> Option<u64> {
    let d = unsigned_part(t);
    if d.len() > 0 && all_digits(d) && digits_value(d) <= u64::MAX {
        Some(digits_value(d) as u64)
    } else {
        None
    }
}

/// The kB figure of the line `s[i..e]`: when it starts with "VmRSS:", its
/// second white-space-separated word read as a `u64`.
pub open spec fn line_rss_kb(s: Seq<char>, i: int, e: int) -> Option<u64> {
    if e - i >= 6 && s[i] == 'V' && s[i + 1] == 'm' && s[i + 2] == 'R' && s[i + 3] == 'S' && s[i + 4] == 'S'
        && s[i + 5] == ':' {
        let w = skip_ws(s, skip_word(s, skip_ws(s, i, e), e), e);
        if w >= e {
            None
        } else {
            parse_u64_spec(s.subrange(w, skip_word(s, w, e)))
        }
    } else {
        None
    }
}

proof fn lemma_line_end_bounds(s: Seq<char>, i: int)
    requires
        0 <= i <= s.len(),
    ensures
        i <= line_end(s, i) <= s.len(),
        line_end(s, i) < s.len() ==> s[line_end(s, i)] == '\n',
    decreases s.len() - i,
{
    if i < s.len() && s[i] != '\n' {
        lemma_line_end_bounds(s, i + 1);
    }
}

/// The resident size in MB of a `/proc/self/status` text from the line at
/// `i` on: the first "VmRSS:" line whose figure reads, in kB divided by
/// 1024; 0 when there is none.
pub open spec fn rss_from(s: Seq<char>, i: int) -> u64
    decreases s.len() - i,
{
    if i < 0 || i >= s.len() {
        0
    } else {
        let e = line_end(s, i);
        match line_rss_kb(s, i, e) {
            Some(kb) => kb / 1024,
            None => if i <= e < s.len() {
                rss_from(s, e + 1)
            } else {
                0
            },
        }
    }
}

/// The resident size in MB that a `/proc/self/status` text reports.
pub open spec fn status_rss_mb(s: Seq<char>) -> u64 {
    rss_from(s, 0)
}

fn find_line_end(status: &str, i: usize, n: usize) -> (e: usize)
    requires
        n == status@.len(),
        i <= n,
    ensures
        e == line_end(status@, i as int),
{
    let mut j = i;
    while j < n
        invariant
            n == status@.len(),
            i <= j <= n,
            line_end(status@, i as int) == line_end(status@, j as int),
        decreases n - j,
    {
        if status.get_char(j) == '\n' {
            return j;
        }
        j = j + 1;
    }
    j
}

fn is_ws_exec(c: char) -> (r: bool)
    ensures
        r == is_ws(c),
{
    let u = c as u32;
    (0x09 <= u && u <= 0x0D) || u == 0x20 || u == 0x85 || u == 0xA0 || u == 0x1680 || (0x2000 <= u && u <= 0x200A)
        || u == 0x2028 || u == 0x2029 || u == 0x202F || u == 0x205F || u == 0x3000
}

fn skip_ws_exec(status: &str, j: usize, end: usize) -> (r: usize)
    requires
        end <= status@.len(),
        j <= end,
    ensures
        r == skip_ws(status@, j as int, end as int),
        j <= r <= end,
{
    let mut k = j;
    while k < end
        invariant
            end <= status@.len(),
            j <= k <= end,
            skip_ws(status@, j as int, end as int) == skip_ws(status@, k as int, end as int),
        decreases end - k,
    {
        if !is_ws_exec(status.get_char(k)) {
            return k;
        }
        k = k + 1;
    }
    k
}

fn skip_word_exec(status: &str, j: usize, end: usize) -> (r: usize)
    requires
        end <= status@.len(),
        j <= end,
    ensures
        r == skip_word(status@, j as int, end as int),
        j <= r <= end,
{
    let mut k = j;
    while k < end
        invariant
            end <= status@.len(),
            j <= k <= end,
            skip_word(status@, j as int, end as int) == skip_word(status@, k as int, end as int),
        decreases end - k,
    {
        if is_ws_exec(status.get_char(k)) {
            return k;
        }
        k = k + 1;
    }
    k
}

proof fn lemma_digits_value_prefix(d: Seq<char>, k: int)
    requires
        0 <= k <= d.len(),
    ensures
        digits_value(d.subrange(0, k)) <= digits_value(d),
    decreases d.len() - k,
{
    if k < d.len() {
        lemma_digits_value_prefix(d, k + 1);
        let p = d.subrange(0, k + 1);
        assert(p.drop_last() =~= d.subrange(0, k));
    } else {
        assert(d.subrange(0, k) =~= d);
    }
}

/// `u64::from_str` of the characters `a..b` of `status`.
fn parse_u64_at(status: &str, a: usize, b: usize) -> (r: Option<u64>)
    requires
        a <= b <= status@.len(),
    ensures
        r == parse_u64_spec(status@.subrange(a as int, b as int)),
{
    let ghost t = status@.subrange(a as int, b as int);
    let mut k = a;
    if k < b && status.get_char(k) == '+' {
        k = k + 1;
    }
    let ghost d = unsigned_part(t);
    assert(d =~= status@.subrange(k as int, b as int));
    if k == b {
        return None;
    }
    let start = k;
    let mut v: u64 = 0;
    while k < b
        invariant
            a <= start <= k <= b <= status@.len(),
            t == status@.subrange(a as int, b as int),
            d == unsigned_part(t),
            d == status@.subrange(start as int, b as int),
            v == digits_value(status@.subrange(start as int, k as int)),
            forall|q: int| start <= q < k ==> is_digit(#[trigger] status@[q]),
        decreases b - k,
    {
        let c = status.get_char(k);
        if !(('0' as u32) <= (c as u32) && (c as u32) <= ('9' as u32)) {
            assert(!is_digit(d[k - start]));
            assert(!all_digits(d));
            return None;
        }
        let digit = (c as u32 - '0' as u32) as u64;
        proof {
            let p = status@.subrange(start as int, k + 1);
            assert(p.drop_last() =~= status@.subrange(start as int, k as int));
            assert(p.last() == c);
        }
        if v > (u64::MAX - digit) / 10 {
            proof {
                assert(digits_value(status@.subrange(start as int, k + 1)) > u64::MAX) by (nonlinear_arith)
                    requires
                        digits_value(status@.subrange(start as int, k + 1)) == v * 10 + digit,
                        v > (u64::MAX - digit) / 10,
                        digit <= 9,
                ;
                assert(d.subrange(0, k + 1 - start) =~= status@.subrange(start as int, k + 1));
                lemma_digits_value_prefix(d, k + 1 - start);
            }
            return None;
        }
        v = v * 10 + digit;
        k = k + 1;
    }
    assert(status@.subrange(start as int, k as int) =~= d);
    assert forall|q: int| 0 <= q < d.len() implies is_digit(#[trigger] d[q]) by {
        assert(d[q] == status@[start + q]);
    }
    assert(all_digits(d));
    Some(v)
}

fn line_rss_kb_exec(status: &str, i: usize, e: usize) -> (r: Option<u64>)
    requires
        i <= e <= status@.len(),
    ensures
        r == line_rss_kb(status@, i as int, e as int),
{
    if e - i < 6 {
        return None;
    }
    if !(status.get_char(i) == 'V' && status.get_char(i + 1) == 'm' && status.get_char(i + 2) == 'R'
        && status.get_char(i + 3) == 'S' && status.get_char(i + 4) == 'S' && status.get_char(i + 5) == ':') {
        return None;
    }
    let w0 = skip_ws_exec(status, i, e);
    let w1 = skip_word_exec(status, w0, e);
    let w = skip_ws_exec(status, w1, e);
    if w >= e {
        return None;
    }
    let w_end = skip_word_exec(status, w, e);
    parse_u64_at(status, w, w_end)
}

/// The resident size in MB reported by the text of `/proc/self/status`:
/// the kB figure of its first readable "VmRSS:" line, divided by 1024; 0
/// when there is none.
pub fn rss_mb_from_status(status: &str) -> (r: u64)
    ensures
        r == status_rss_mb(status@),
{
    let n = status.unicode_len();
    let mut i: usize = 0;
    while i < n
        invariant
            n == status@.len(),
            i <= n,
            rss_from(status@, 0) == rss_from(status@, i as int),
        decreases n - i,
    {
        let e = find_line_end(status, i, n);
        proof {
            lemma_line_end_bounds(status@, i as int);
        }
        match line_rss_kb_exec(status, i, e) {
            Some(kb) => {
                return kb / 1024;
            },
            None => {},
        }
        if e >= n {
            return 0;
        }
        i = e + 1;
    }
    0
}

} // verus!
