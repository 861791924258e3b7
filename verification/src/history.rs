//! The transcript history kept in the cache directory: memo file keys, timestamps,
//! the list of past transcripts and what to load or delete for one of them.
use vstd::prelude::*;
use crate::json::{
    flat, json_array_len_field, json_f64_bits_field, json_parse_error, json_str_field, json_u64_field, opt_str,
    json_error, parse_array_len_field, parse_f64_bits_field, parse_is_array, parse_str_field, parse_u64_field,
    json_is_array, parse_field_value, parse_value, json_value, json_field_value,
};
use crate::text::{
    chars_of, concat, ends_with, has_prefix, has_suffix, lex_less, lex_lt, padded_decimal, push_padded,
    starts_with, string_from, views,
};

verus! {

// ---------------------------------------------------------------------------
// Memo keys
// ---------------------------------------------------------------------------

/// Some character of `s` is a `.`.
pub open spec fn has_dot(s: Seq<char>) -> bool {
    exists|i: int| 0 <= i < s.len() && s[i] == '.'
}

/// The name without its extension: everything before the last `.`, or all of it when
/// there is no `.`.
pub open spec fn stem_of(s: Seq<char>) -> Seq<char>
    decreases s.len(),
{
    if !has_dot(s) || s.len() == 0 {
        s
    } else if s.last() == '.' {
        s.drop_last()
    } else {
        stem_of(s.drop_last())
    }
}

/// Characters kept as they are in a memo key: ASCII letters and digits, `.`, `_`, `-`.
pub open spec fn key_char(c: char) -> bool {
    let n = c as u32;
    ||| 0x30 <= n <= 0x39
    ||| 0x41 <= n <= 0x5a
    ||| 0x61 <= n <= 0x7a
    ||| c == '.'
    ||| c == '_'
    ||| c == '-'
}

/// The stem with each run of other characters replaced by one `-` (a run is broken
/// only by a kept character), with whether the last character written was such a `-`.
pub open spec fn replace_runs(s: Seq<char>) -> (Seq<char>, bool)
    decreases s.len(),
{
    if s.len() == 0 {
        (Seq::empty(), false)
    } else {
        let (out, prev) = replace_runs(s.drop_last());
        let c = s.last();
        if key_char(c) {
            (out.push(c), false)
        } else if !prev {
            (out.push('-'), true)
        } else {
            (out, prev)
        }
    }
}

/// Leading `-` characters removed.
pub open spec fn trim_dash_start(s: Seq<char>) -> Seq<char>
    decreases s.len(),
{
    if s.len() > 0 && s[0] == '-' {
        trim_dash_start(s.drop_first())
    } else {
        s
    }
}

/// Trailing `-` characters removed.
pub open spec fn trim_dash_end(s: Seq<char>) -> Seq<char>
    decreases s.len(),
{
    if s.len() > 0 && s.last() == '-' {
        trim_dash_end(s.drop_last())
    } else {
        s
    }
}

/// The longest memo key.
pub const MAX_KEY_CHARS: usize = 80;

/// The key that memo files for a source are named after: the name's stem with runs of
/// characters outside `[A-Za-z0-9._-]` made single `-`, no `-` at either end, at most
/// 80 characters, and `transcript` when nothing is left.
pub open spec fn memo_key(file_name: Seq<char>) -> Seq<char> {
    let t = trim_dash_end(trim_dash_start(replace_runs(stem_of(file_name)).0));
    let cut = if t.len() > MAX_KEY_CHARS {
        t.take(MAX_KEY_CHARS as int)
    } else {
        t
    };
    if cut.len() == 0 {
        "transcript"@
    } else {
        cut
    }
}

fn is_key_char(c: char) -> (r: bool)
    ensures
        r == key_char(c),
{
    let n = c as u32;
    (0x30 <= n && n <= 0x39) || (0x41 <= n && n <= 0x5a) || (0x61 <= n && n <= 0x7a) || c == '.'
        || c == '_' || c == '-'
}

proof fn lemma_stem_take(s: Seq<char>, j: int)
    requires
        0 <= j < s.len(),
        s[j] == '.',
        forall|k: int| j < k < s.len() ==> s[k] != '.',
    ensures
        stem_of(s) == s.take(j),
    decreases s.len(),
{
    assert(has_dot(s));
    if s.last() == '.' {
        assert(j == s.len() - 1);
        assert(s.drop_last() == s.take(j));
    } else {
        let t = s.drop_last();
        assert(t[j] == '.');
        assert(has_dot(t));
        lemma_stem_take(t, j);
        assert(t.take(j) == s.take(j));
    }
}

proof fn lemma_stem_none(s: Seq<char>)
    requires
        forall|k: int| 0 <= k < s.len() ==> s[k] != '.',
    ensures
        stem_of(s) == s,
{
}

/// The memo key for a source file name.
pub fn sanitize_for_memo_key(file_name: &str) -> (r: String)
    ensures
        r@ == memo_key(file_name@),
{
    let v = chars_of(file_name);
    // the last '.'
    let mut j: usize = v.len();
    while j > 0 && v[j - 1] != '.'
        invariant
            j <= v.len(),
            forall|k: int| j <= k < v.len() ==> v@[k] != '.',
        decreases j,
    {
        j = j - 1;
    }
    let found = j > 0;
    let stem_len: usize = if found {
        j - 1
    } else {
        v.len()
    };
    proof {
        if found {
            lemma_stem_take(v@, stem_len as int);
        } else {
            lemma_stem_none(v@);
            assert(v@.take(v.len() as int) == v@);
        }
    }
    let ghost stem = v@.take(stem_len as int);
    // replace runs of other characters by '-'
    let mut out: Vec<char> = Vec::new();
    let mut prev_dash = false;
    let mut i: usize = 0;
    assert(stem.take(0) =~= Seq::<char>::empty());
    while i < stem_len
        invariant
            stem_len <= v.len(),
            stem == v@.take(stem_len as int),
            i <= stem_len,
            (out@, prev_dash) == replace_runs(stem.take(i as int)),
        decreases stem_len - i,
    {
        let c = v[i];
        assert(stem.take(i + 1).drop_last() == stem.take(i as int));
        assert(stem.take(i + 1).last() == c);
        if is_key_char(c) {
            out.push(c);
            prev_dash = false;
        } else if !prev_dash {
            out.push('-');
            prev_dash = true;
        }
        i = i + 1;
    }
    assert(stem.take(stem_len as int) == stem);
    // trim '-' at both ends
    let ghost o = out@;
    let mut a: usize = 0;
    assert(o.skip(0) == o);
    while a < out.len() && out[a] == '-'
        invariant
            o == out@,
            a <= out.len(),
            trim_dash_start(o) == trim_dash_start(o.skip(a as int)),
        decreases out.len() - a,
    {
        assert(o.skip(a as int).drop_first() == o.skip(a + 1));
        a = a + 1;
    }
    let ghost ts = o.skip(a as int);
    assert(trim_dash_start(ts) == ts);
    let mut b: usize = out.len();
    assert(ts.take(ts.len() as int) == ts);
    while b > a && out[b - 1] == '-'
        invariant
            o == out@,
            ts == o.skip(a as int),
            a <= b <= out.len(),
            trim_dash_end(ts) == trim_dash_end(ts.take(b - a)),
        decreases b,
    {
        assert(ts.take(b - a).drop_last() == ts.take(b - a - 1));
        b = b - 1;
    }
    let ghost t = ts.take(b - a);
    assert(trim_dash_end(t) == t);
    assert(t == o.subrange(a as int, b as int));
    let end = if b - a > MAX_KEY_CHARS {
        a + MAX_KEY_CHARS
    } else {
        b
    };
    assert(o.subrange(a as int, end as int) == (if t.len() > MAX_KEY_CHARS {
        t.take(MAX_KEY_CHARS as int)
    } else {
        t
    }));
    if end == a {
        String::from_str("transcript")
    } else {
        string_from(&out, a, end)
    }
}

proof fn lemma_replace_runs_key_chars(s: Seq<char>)
    ensures
        forall|i: int| 0 <= i < replace_runs(s).0.len() ==> key_char(#[trigger] replace_runs(s).0[i]),
    decreases s.len(),
{
    if s.len() > 0 {
        lemma_replace_runs_key_chars(s.drop_last());
        let out = replace_runs(s.drop_last()).0;
        let r = replace_runs(s).0;
        assert forall|i: int| 0 <= i < r.len() implies key_char(#[trigger] r[i]) by {
            if i < out.len() {
                assert(r[i] == out[i]);
            } else {
                assert(r[i] == s.last() || r[i] == '-');
            }
        }
    }
}

proof fn lemma_trim_dash_start_suffix(s: Seq<char>)
    ensures
        trim_dash_start(s).len() <= s.len(),
        trim_dash_start(s) == s.skip(s.len() - trim_dash_start(s).len()),
        trim_dash_start(s).len() > 0 ==> trim_dash_start(s)[0] != '-',
    decreases s.len(),
{
    if s.len() > 0 && s[0] == '-' {
        lemma_trim_dash_start_suffix(s.drop_first());
        let t = trim_dash_start(s.drop_first());
        assert(s.drop_first().skip(s.drop_first().len() - t.len()) =~= s.skip(s.len() - t.len()));
    } else {
        assert(s.skip(0) =~= s);
    }
}

proof fn lemma_trim_dash_end_prefix(s: Seq<char>)
    ensures
        trim_dash_end(s).len() <= s.len(),
        trim_dash_end(s) == s.take(trim_dash_end(s).len() as int),
    decreases s.len(),
{
    if s.len() > 0 && s.last() == '-' {
        lemma_trim_dash_end_prefix(s.drop_last());
        let t = trim_dash_end(s.drop_last());
        assert(s.drop_last().take(t.len() as int) =~= s.take(t.len() as int));
    } else {
        assert(s.take(s.len() as int) =~= s);
    }
}

/// A memo key is never empty, has at most 80 characters, all of them in
/// `[A-Za-z0-9._-]`, and does not start with `-`.
pub proof fn lemma_memo_key_shape(file_name: Seq<char>)
    ensures
        0 < memo_key(file_name).len() <= MAX_KEY_CHARS,
        forall|i: int| 0 <= i < memo_key(file_name).len() ==> key_char(#[trigger] memo_key(file_name)[i]),
        memo_key(file_name)[0] != '-',
{
    let r = replace_runs(stem_of(file_name)).0;
    lemma_replace_runs_key_chars(stem_of(file_name));
    let a = trim_dash_start(r);
    lemma_trim_dash_start_suffix(r);
    let t = trim_dash_end(a);
    lemma_trim_dash_end_prefix(a);
    assert forall|i: int| 0 <= i < t.len() implies key_char(#[trigger] t[i]) by {
        assert(t[i] == a[i]);
        assert(a[i] == r[r.len() - a.len() + i]);
    }
    if t.len() > 0 {
        assert(t[0] == a[0]);
    }
    let cut = if t.len() > MAX_KEY_CHARS {
        t.take(MAX_KEY_CHARS as int)
    } else {
        t
    };
    if cut.len() == 0 {
        reveal_strlit("transcript");
        let k = "transcript"@;
        assert forall|i: int| 0 <= i < k.len() implies key_char(#[trigger] k[i]) by {
            assert(0x61 <= k[i] as u32 <= 0x7a);
        }
    } else {
        assert forall|i: int| 0 <= i < cut.len() implies key_char(#[trigger] cut[i]) by {
            assert(cut[i] == t[i]);
        }
        assert(cut[0] == t[0]);
    }
}

/// An ASCII letter or digit, `.`, `_` or `-`.
pub open spec fn plain_name_char(c: char) -> bool {
    ||| ('a' as u32) <= (c as u32) <= ('z' as u32)
    ||| ('A' as u32) <= (c as u32) <= ('Z' as u32)
    ||| ('0' as u32) <= (c as u32) <= ('9' as u32)
    ||| c == '_' || c == '-' || c == '.'
}

proof fn lemma_replace_runs_plain(s: Seq<char>)
    requires
        forall|i: int| 0 <= i < s.len() ==> plain_name_char(#[trigger] s[i]),
    ensures
        replace_runs(s).0 == s,
    decreases s.len(),
{
    if s.len() > 0 {
        assert(plain_name_char(s[s.len() - 1]));
        lemma_replace_runs_plain(s.drop_last());
        assert(s.drop_last().push(s.last()) =~= s);
    }
}

/// Letters, digits, `.`, `_` and `-` are kept as they are: a file name whose stem (what
/// comes before its last `.`) is made only of them, does not start or end with `-` and
/// has at most 80 characters has that stem as its memo key.
pub proof fn lemma_plain_stem_is_its_own_key(stem: Seq<char>, ext: Seq<char>)
    requires
        0 < stem.len() <= 80,
        forall|i: int| 0 <= i < stem.len() ==> plain_name_char(#[trigger] stem[i]),
        stem[0] != '-',
        stem[stem.len() - 1] != '-',
        forall|i: int| 0 <= i < ext.len() ==> ext[i] != '.',
    ensures
        memo_key(stem + "."@ + ext) == stem,
{
    reveal_strlit(".");
    let s = stem + "."@ + ext;
    let j = stem.len() as int;
    assert(s[j] == '.');
    assert forall|k: int| j < k < s.len() implies s[k] != '.' by {
        assert(s[k] == ext[k - j - 1]);
    }
    lemma_stem_take(s, j);
    assert(s.take(j) =~= stem);
    lemma_replace_runs_plain(stem);
    assert(trim_dash_start(stem) == stem);
    assert(trim_dash_end(stem) == stem);
}

/// A file name without any `.`, made only of letters, digits, `_` and `-`, not starting
/// or ending with `-` and of at most 80 characters, is its own memo key.
pub proof fn lemma_plain_name_is_its_own_key(name: Seq<char>)
    requires
        0 < name.len() <= 80,
        forall|i: int| 0 <= i < name.len() ==> plain_name_char(#[trigger] name[i]) && name[i] != '.',
        name[0] != '-',
        name[name.len() - 1] != '-',
    ensures
        memo_key(name) == name,
{
    lemma_stem_none(name);
    lemma_replace_runs_plain(name);
    assert(trim_dash_start(name) == name);
    assert(trim_dash_end(name) == name);
}

// ---------------------------------------------------------------------------
// Calendar
// ---------------------------------------------------------------------------

pub open spec fn is_leap(y: int) -> bool {
    (y % 4 == 0 && y % 100 != 0) || y % 400 == 0
}

pub open spec fn year_len(y: int) -> int {
    if is_leap(y) {
        366
    } else {
        365
    }
}

/// Days from 1970-01-01 to the first day of year `y`.
pub open spec fn days_before_year(y: int) -> int
    decreases y - 1970,
{
    if y <= 1970 {
        0
    } else {
        days_before_year(y - 1) + year_len(y - 1)
    }
}

/// Days in month `m` (1 to 12) of year `y`.
pub open spec fn month_len(y: int, m: int) -> int {
    if m == 2 {
        if is_leap(y) {
            29
        } else {
            28
        }
    } else if m == 4 || m == 6 || m == 9 || m == 11 {
        30
    } else {
        31
    }
}

/// Days from the first of the year to the first of month `m`.
pub open spec fn days_before_month(y: int, m: int) -> int
    decreases m,
{
    if m <= 1 {
        0
    } else {
        days_before_month(y, m - 1) + month_len(y, m - 1)
    }
}

/// A calendar date and time of day, in UTC.
pub open spec fn is_civil_time(
    secs: int,
    r: (i32, u32, u32, u32, u32, u32),
) -> bool {
    let (year, month, day, hh, mm, ss) = r;
    let days = secs / 86400;
    &&& year >= 1970
    &&& 1 <= month <= 12
    &&& 1 <= day <= month_len(year as int, month as int)
    &&& days_before_year(year as int) + days_before_month(year as int, month as int) + day - 1 == days
    &&& hh == (secs / 3600) % 24
    &&& mm == (secs / 60) % 60
    &&& ss == secs % 60
}

/// Days in month `m` of year `y` on the Gregorian calendar: 30 for April, June, September
/// and November; 29 for February of a leap year (divisible by 4, and by 400 when by
/// 100), else 28; 31 for the others.
pub open spec fn gregorian_month_days(y: int, m: int) -> int {
    let leap = (y % 4 == 0 && y % 100 != 0) || y % 400 == 0;
    if m == 4 || m == 6 || m == 9 || m == 11 {
        30
    } else if m == 2 && leap {
        29
    } else if m == 2 {
        28
    } else {
        31
    }
}

/// Days of year `y` before month `m`: 0, 31, 59, 90, 120, 151, 181, 212, 243, 273, 304,
/// 334, one more from March on in a leap year.
pub open spec fn gregorian_days_before(y: int, m: int) -> int {
    let leap = (y % 4 == 0 && y % 100 != 0) || y % 400 == 0;
    let base: int = if m == 1 {
        0
    } else if m == 2 {
        31
    } else if m == 3 {
        59
    } else if m == 4 {
        90
    } else if m == 5 {
        120
    } else if m == 6 {
        151
    } else if m == 7 {
        181
    } else if m == 8 {
        212
    } else if m == 9 {
        243
    } else if m == 10 {
        273
    } else if m == 11 {
        304
    } else {
        334
    };
    if leap && m > 2 {
        base + 1
    } else {
        base
    }
}

/// The calendar the dates are read on has the real month lengths, and months start on
/// the real days of the year.
pub proof fn lemma_calendar_months(y: int, m: int)
    requires
        1 <= m <= 12,
    ensures
        month_len(y, m) == gregorian_month_days(y, m),
        days_before_month(y, m) == gregorian_days_before(y, m),
        year_len(y) == if (y % 4 == 0 && y % 100 != 0) || y % 400 == 0 {
            366int
        } else {
            365int
        },
        y >= 1970 ==> days_before_year(y + 1) == days_before_year(y) + year_len(y),
{
    reveal_with_fuel(days_before_month, 13);
}

/// A calendar date read from a count of seconds lies in a real month: its day is at most
/// that month's real length, and its day of the year counts the real lengths of the
/// months before it. So the first second of 2024-05-01 reads as month 5, day 1.
pub proof fn lemma_civil_time_real_months(secs: int, r: (i32, u32, u32, u32, u32, u32))
    requires
        is_civil_time(secs, r),
    ensures
        1 <= r.1 <= 12,
        1 <= r.2 <= gregorian_month_days(r.0 as int, r.1 as int),
        days_before_year(r.0 as int) + gregorian_days_before(r.0 as int, r.1 as int) + r.2 - 1 == secs / 86400,
{
    lemma_calendar_months(r.0 as int, r.1 as int);
}

proof fn lemma_year_len_is_sum_of_months(y: int)
    ensures
        days_before_month(y, 13) == year_len(y),
{
    reveal_with_fuel(days_before_month, 13);
}

fn year_length(year: i32) -> (r: i64)
    requires
        year >= 0,
    ensures
        r == year_len(year as int),
{
    if (year % 4 == 0 && year % 100 != 0) || year % 400 == 0 {
        366
    } else {
        365
    }
}

fn month_length(leap: bool, m: u32) -> (r: u32)
    ensures
        leap ==> r == month_len(2000, m as int),
        !leap ==> r == month_len(1970, m as int),
{
    if m == 2 {
        if leap {
            29
        } else {
            28
        }
    } else if m == 4 || m == 6 || m == 9 || m == 11 {
        30
    } else {
        31
    }
}

proof fn lemma_month_len_by_leap(y: int, m: int)
    ensures
        is_leap(y) ==> month_len(y, m) == month_len(2000, m),
        !is_leap(y) ==> month_len(y, m) == month_len(1970, m),
{
}

/// The first day count past the calendar: the day after the last day of the last
/// `i32` year.
pub open spec fn last_day() -> int {
    days_before_year(i32::MAX as int + 1)
}

/// Splits seconds since 1970-01-01T00:00:00Z into the UTC calendar date and time of
/// day: `(year, month, day, hour, minute, second)`.
pub fn epoch_to_ymdhms(secs: i64) -> (r: (i32, u32, u32, u32, u32, u32))
    requires
        secs >= 0,
        secs / 86400 < last_day(),
    ensures
        is_civil_time(secs as int, r),
{
    let s0 = secs;
    let ss = (s0 % 60) as u32;
    let s1 = s0 / 60;
    let mm = (s1 % 60) as u32;
    let s2 = s1 / 60;
    let hh = (s2 % 24) as u32;
    let mut days = s2 / 24;
    proof {
        assert(s2 == secs / 3600) by {
            vstd::arithmetic::div_mod::lemma_div_denominator(secs as int, 60, 60);
        }
        assert(days == secs / 86400) by {
            vstd::arithmetic::div_mod::lemma_div_denominator(secs as int, 3600, 24);
        }
    }
    let ghost total = days as int;
    let mut year: i32 = 1970;
    while days >= year_length(year)
        invariant
            1970 <= year <= i32::MAX,
            days >= 0,
            total == secs / 86400,
            total < last_day(),
            days_before_year(year as int) + days == total,
        decreases days,
    {
        proof {
            assert(days_before_year(year + 1) == days_before_year(year as int) + year_len(year as int));
            if year == i32::MAX {
                assert(false);
            }
        }
        days = days - year_length(year);
        year = year + 1;
    }
    let leap = (year % 4 == 0 && year % 100 != 0) || year % 400 == 0;
    assert(leap == is_leap(year as int));
    let mut month: u32 = 1;
    let mut d = days as u32;
    let ghost doy = days as int;
    proof {
        lemma_year_len_is_sum_of_months(year as int);
        lemma_month_len_by_leap(year as int, 1);
    }
    while d >= month_length(leap, month)
        invariant
            1 <= month <= 12,
            leap == is_leap(year as int),
            doy < year_len(year as int),
            days_before_month(year as int, month as int) + d == doy,
            days_before_month(year as int, 13) == year_len(year as int),
        decreases 12 - month,
    {
        let ml = month_length(leap, month);
        proof {
            lemma_month_len_by_leap(year as int, month as int);
            if month == 12 {
                assert(days_before_month(year as int, 13) == days_before_month(year as int, 12)
                    + month_len(year as int, 12));
                assert(false);
            }
        }
        d = d - ml;
        month = month + 1;
    }
    proof {
        lemma_month_len_by_leap(year as int, month as int);
    }
    (year, month, d + 1, hh, mm, ss)
}

/// Leap days counted up to year `n`.
pub open spec fn leap_count(n: int) -> int {
    n / 4 - n / 100 + n / 400
}

proof fn lemma_div_step(n: int, d: int)
    requires
        n >= 1,
        d > 0,
    ensures
        n / d - (n - 1) / d == (if n % d == 0 {
            1int
        } else {
            0int
        }),
{
    vstd::arithmetic::div_mod::lemma_fundamental_div_mod(n, d);
    vstd::arithmetic::div_mod::lemma_fundamental_div_mod(n - 1, d);
    let q = n / d;
    let r = n % d;
    let q1 = (n - 1) / d;
    let r1 = (n - 1) % d;
    assert(0 <= r < d) by {
        vstd::arithmetic::div_mod::lemma_mod_bound(n, d);
    }
    assert(0 <= r1 < d) by {
        vstd::arithmetic::div_mod::lemma_mod_bound(n - 1, d);
    }
    assert(d * q + r == n);
    assert(d * q1 + r1 == n - 1);
    assert(d * (q - q1) == r1 - r + 1) by (nonlinear_arith)
        requires
            d * q + r == n,
            d * q1 + r1 == n - 1,
    ;
    if r == 0 {
        assert(q - q1 == 1) by (nonlinear_arith)
            requires
                d * (q - q1) == r1 + 1,
                0 <= r1 < d,
                d > 0,
        ;
    } else {
        assert(q - q1 == 0) by (nonlinear_arith)
            requires
                d * (q - q1) == r1 - r + 1,
                0 <= r1 < d,
                0 < r < d,
        ;
    }
}

proof fn lemma_mod_divides(n: int, a: int, b: int)
    requires
        a > 0,
        b > 0,
        n % (a * b) == 0,
    ensures
        n % a == 0,
{
    assert(a * b > 0) by (nonlinear_arith)
        requires
            a > 0,
            b > 0,
    ;
    vstd::arithmetic::div_mod::lemma_fundamental_div_mod(n, a * b);
    let k = n / (a * b);
    assert(n == a * (b * k)) by (nonlinear_arith)
        requires
            n == (a * b) * k + n % (a * b),
            n % (a * b) == 0,
    ;
    vstd::arithmetic::div_mod::lemma_mod_multiples_basic(b * k, a);
    assert((b * k) * a == a * (b * k)) by (nonlinear_arith);
}

/// Days from 1970-01-01 to the first day of year `y`, in closed form.
pub proof fn lemma_days_before_year_closed(y: int)
    requires
        y >= 1970,
    ensures
        days_before_year(y) == 365 * (y - 1970) + leap_count(y - 1) - leap_count(1969),
    decreases y - 1970,
{
    if y > 1970 {
        lemma_days_before_year_closed(y - 1);
        let n = y - 1;
        lemma_div_step(n, 4);
        lemma_div_step(n, 100);
        lemma_div_step(n, 400);
        if n % 400 == 0 {
            lemma_mod_divides(n, 100, 4);
        }
        if n % 100 == 0 {
            lemma_mod_divides(n, 4, 25);
        }
    }
}

/// The number of the first day after the last year an `i32` holds.
pub const LAST_DAY: i64 = 784351576777;

/// Seconds since the epoch that fall within the calendar: not before 1970 and not after
/// the last day of the last year an `i32` holds.
pub fn fits_calendar(secs: i64) -> (r: bool)
    ensures
        r == (secs >= 0 && secs / 86400 < last_day()),
{
    proof {
        lemma_days_before_year_closed(i32::MAX as int + 1);
        assert(last_day() == LAST_DAY);
    }
    secs >= 0 && secs / 86400 < LAST_DAY
}

/// `YYYY-MM-DDTHH:MM:SSZ` for a calendar time.
pub open spec fn iso_text(r: (i32, u32, u32, u32, u32, u32)) -> Seq<char> {
    padded_decimal(r.0 as nat, 4) + "-"@ + padded_decimal(r.1 as nat, 2) + "-"@ + padded_decimal(
        r.2 as nat,
        2,
    ) + "T"@ + padded_decimal(r.3 as nat, 2) + ":"@ + padded_decimal(r.4 as nat, 2) + ":"@
        + padded_decimal(r.5 as nat, 2) + "Z"@
}

proof fn lemma_days_before_year_monotone(a: int, b: int)
    requires
        a <= b,
    ensures
        days_before_year(a) <= days_before_year(b),
    decreases b - a,
{
    if a < b {
        lemma_days_before_year_monotone(a, b - 1);
    }
}

proof fn lemma_days_before_month_monotone(y: int, a: int, b: int)
    requires
        1 <= a <= b,
    ensures
        days_before_month(y, a) <= days_before_month(y, b),
    decreases b - a,
{
    if a < b {
        lemma_days_before_month_monotone(y, a, b - 1);
    }
}

/// A count of seconds has exactly one calendar date and time of day.
pub proof fn lemma_civil_time_unique(
    secs: int,
    r1: (i32, u32, u32, u32, u32, u32),
    r2: (i32, u32, u32, u32, u32, u32),
)
    requires
        is_civil_time(secs, r1),
        is_civil_time(secs, r2),
    ensures
        r1 == r2,
{
    let (y1, m1, d1, _, _, _) = r1;
    let (y2, m2, d2, _, _, _) = r2;
    let y1 = y1 as int;
    let y2 = y2 as int;
    let m1 = m1 as int;
    let m2 = m2 as int;
    lemma_year_len_is_sum_of_months(y1);
    lemma_year_len_is_sum_of_months(y2);
    lemma_days_before_month_monotone(y1, m1 + 1, 13);
    lemma_days_before_month_monotone(y2, m2 + 1, 13);
    lemma_days_before_month_monotone(y1, 1, m1);
    lemma_days_before_month_monotone(y2, 1, m2);
    assert(days_before_year(y1 + 1) == days_before_year(y1) + year_len(y1));
    assert(days_before_year(y2 + 1) == days_before_year(y2) + year_len(y2));
    assert(days_before_month(y1, m1 + 1) == days_before_month(y1, m1) + month_len(y1, m1));
    assert(days_before_month(y2, m2 + 1) == days_before_month(y2, m2) + month_len(y2, m2));
    if y1 < y2 {
        lemma_days_before_year_monotone(y1 + 1, y2);
        assert(false);
    }
    if y2 < y1 {
        lemma_days_before_year_monotone(y2 + 1, y1);
        assert(false);
    }
    if m1 < m2 {
        lemma_days_before_month_monotone(y1, m1 + 1, m2);
        assert(false);
    }
    if m2 < m1 {
        lemma_days_before_month_monotone(y1, m2 + 1, m1);
        assert(false);
    }
}

/// The calendar date and time of a count of seconds since the epoch.
pub open spec fn civil_of(secs: int) -> (i32, u32, u32, u32, u32, u32) {
    choose|t: (i32, u32, u32, u32, u32, u32)| is_civil_time(secs, t)
}

/// The ISO-8601 UTC text of a count of seconds since the epoch.
pub open spec fn iso_of(secs: int) -> Seq<char> {
    iso_text(civil_of(secs))
}

/// The ISO-8601 UTC text of a time given in seconds since the Unix epoch.
pub fn iso_from_epoch(secs: i64) -> (r: String)
    requires
        secs >= 0,
        secs / 86400 < last_day(),
    ensures
        r@ == iso_of(secs as int),
        is_civil_time(secs as int, civil_of(secs as int)),
{
    let t = epoch_to_ymdhms(secs);
    let mut s = String::new();
    push_padded(&mut s, t.0 as u64, 4);
    s.append("-");
    push_padded(&mut s, t.1 as u64, 2);
    s.append("-");
    push_padded(&mut s, t.2 as u64, 2);
    s.append("T");
    push_padded(&mut s, t.3 as u64, 2);
    s.append(":");
    push_padded(&mut s, t.4 as u64, 2);
    s.append(":");
    push_padded(&mut s, t.5 as u64, 2);
    s.append("Z");
    assert(s@ == iso_text(t));
    proof {
        assert(is_civil_time(secs as int, t));
        lemma_civil_time_unique(secs as int, t, civil_of(secs as int));
    }
    s
}

// ---------------------------------------------------------------------------
// Memo files
// ---------------------------------------------------------------------------

/// The prefix of the names of memo files written for a source: its memo key and `-`.
pub open spec fn memo_prefix_of(source_name: Seq<char>) -> Seq<char> {
    memo_key(source_name) + "-"@
}

/// A memo file of the source whose names start with `prefix`.
pub open spec fn is_memo_file(name: Seq<char>, prefix: Seq<char>) -> bool {
    has_prefix(name, prefix) && has_suffix(name, ".memo.txt"@)
}

/// A memo for the source (named by `source_name`) is among the file names.
pub open spec fn has_memo_spec(names: Seq<Seq<char>>, source_name: Seq<char>) -> bool {
    source_name.len() > 0 && exists|i: int|
        0 <= i < names.len() && is_memo_file(#[trigger] names[i], memo_prefix_of(source_name))
}

/// The memo-file prefix for a source name.
pub fn memo_prefix(source_name: &str) -> (r: String)
    ensures
        r@ == memo_prefix_of(source_name@),
{
    let key = sanitize_for_memo_key(source_name);
    concat(key.as_str(), "-")
}

fn memo_file_matches(name: &str, prefix: &str) -> (r: bool)
    ensures
        r == is_memo_file(name@, prefix@),
{
    starts_with(name, prefix) && ends_with(name, ".memo.txt")
}

/// Whether a memo was generated for a source, given the names of the cache files.
pub fn has_memo_for(names: &Vec<String>, source_name: &str) -> (r: bool)
    ensures
        r == has_memo_spec(views(names@), source_name@),
{
    if source_name.unicode_len() == 0 {
        return false;
    }
    let prefix = memo_prefix(source_name);
    let mut i: usize = 0;
    while i < names.len()
        invariant
            i <= names.len(),
            source_name@.len() > 0,
            prefix@ == memo_prefix_of(source_name@),
            forall|k: int| 0 <= k < i ==> !is_memo_file(#[trigger] views(names@)[k], prefix@),
        decreases names.len() - i,
    {
        if memo_file_matches(names[i].as_str(), prefix.as_str()) {
            assert(views(names@)[i as int] == names@[i as int]@);
            assert(is_memo_file(views(names@)[i as int], memo_prefix_of(source_name@)));
            assert(has_memo_spec(views(names@), source_name@));
            return true;
        }
        i = i + 1;
    }
    false
}

/// A file in the cache directory whose name might be a memo, with when it was last
/// modified (nanoseconds since the epoch; the epoch itself when unknown).
pub struct MemoFile {
    pub name: String,
    pub modified_nanos: i128,
}

/// The newest memo of the source among the files (the first of equally new ones).
pub open spec fn latest_memo_spec(files: Seq<MemoFile>, prefix: Seq<char>) -> Option<int>
    decreases files.len(),
{
    if files.len() == 0 {
        None
    } else {
        let best = latest_memo_spec(files.drop_last(), prefix);
        let f = files.last();
        if is_memo_file(f.name@, prefix) && (best is None || f.modified_nanos > files[best->0].modified_nanos) {
            Some(files.len() - 1)
        } else {
            best
        }
    }
}

/// Which memo of a source to show: the index of the newest one among the files, `None`
/// when the source name is empty or it has none.
pub fn latest_memo(files: &Vec<MemoFile>, source_name: &str) -> (r: Option<usize>)
    ensures
        source_name@.len() == 0 ==> r is None,
        source_name@.len() > 0 ==> r == match latest_memo_spec(files@, memo_prefix_of(source_name@)) {
            Some(k) => Some(k as usize),
            None => None::<usize>,
        },
{
    if source_name.unicode_len() == 0 {
        return None;
    }
    let prefix = memo_prefix(source_name);
    let mut best: Option<usize> = None;
    let mut i: usize = 0;
    while i < files.len()
        invariant
            i <= files.len(),
            prefix@ == memo_prefix_of(source_name@),
            best == match latest_memo_spec(files@.take(i as int), prefix@) {
                Some(k) => Some(k as usize),
                None => None::<usize>,
            },
            match latest_memo_spec(files@.take(i as int), prefix@) {
                Some(k) => 0 <= k < i,
                None => true,
            },
        decreases files.len() - i,
    {
        let ghost pre = files@.take(i as int);
        assert(files@.take(i + 1).drop_last() == pre);
        assert(files@.take(i + 1).last() == files@[i as int]);
        let m = memo_file_matches(files[i].name.as_str(), prefix.as_str());
        let newer = match best {
            None => true,
            Some(b) => files[i].modified_nanos > files[b].modified_nanos,
        };
        proof {
            match latest_memo_spec(pre, prefix@) {
                Some(k) => {
                    assert(files@.take(i + 1)[k] == files@[k]);
                },
                None => {},
            }
        }
        if m && newer {
            best = Some(i);
        }
        i = i + 1;
    }
    assert(files@.take(files.len() as int) == files@);
    best
}

/// The memo chosen is a memo of the source, no memo of it is newer, and every earlier
/// memo of it is older.
pub proof fn lemma_latest_memo_is_newest(files: Seq<MemoFile>, prefix: Seq<char>)
    ensures
        latest_memo_spec(files, prefix) is None ==> forall|j: int|
            0 <= j < files.len() ==> !is_memo_file(#[trigger] files[j].name@, prefix),
        latest_memo_spec(files, prefix) matches Some(k) ==> {
            &&& 0 <= k < files.len()
            &&& is_memo_file(files[k].name@, prefix)
            &&& forall|j: int|
                0 <= j < files.len() && is_memo_file(#[trigger] files[j].name@, prefix) ==> {
                    &&& files[j].modified_nanos <= files[k].modified_nanos
                    &&& j < k ==> files[j].modified_nanos < files[k].modified_nanos
                }
        },
    decreases files.len(),
{
    if files.len() > 0 {
        let prev = files.drop_last();
        lemma_latest_memo_is_newest(prev, prefix);
        assert forall|j: int| 0 <= j < prev.len() implies prev[j] == files[j] by {}
    }
}

// ---------------------------------------------------------------------------
// History entries
// ---------------------------------------------------------------------------

/// One past transcript as the history list shows it. The duration is carried as the
/// bit pattern of the `f64` number of seconds.
pub struct HistoryEntry {
    pub file_hash: String,
    pub source_path: String,
    pub source_name: String,
    pub engine: String,
    pub mode: String,
    pub language: String,
    pub model_size: String,
    pub created_at: String,
    pub segment_count: u64,
    pub duration_sec_bits: u64,
    pub has_memo: bool,
}

/// A history entry as values.
pub struct EntryView {
    pub file_hash: Seq<char>,
    pub source_path: Seq<char>,
    pub source_name: Seq<char>,
    pub engine: Seq<char>,
    pub mode: Seq<char>,
    pub language: Seq<char>,
    pub model_size: Seq<char>,
    pub created_at: Seq<char>,
    pub segment_count: u64,
    pub duration_sec_bits: u64,
    pub has_memo: bool,
}

impl View for HistoryEntry {
    type V = EntryView;

    open spec fn view(&self) -> EntryView {
        EntryView {
            file_hash: self.file_hash@,
            source_path: self.source_path@,
            source_name: self.source_name@,
            engine: self.engine@,
            mode: self.mode@,
            language: self.language@,
            model_size: self.model_size@,
            created_at: self.created_at@,
            segment_count: self.segment_count,
            duration_sec_bits: self.duration_sec_bits,
            has_memo: self.has_memo,
        }
    }
}

impl HistoryEntry {
    /// A copy of the entry.
    pub fn duplicate(&self) -> (r: HistoryEntry)
        ensures
            r@ == self@,
    {
        HistoryEntry {
            file_hash: self.file_hash.clone(),
            source_path: self.source_path.clone(),
            source_name: self.source_name.clone(),
            engine: self.engine.clone(),
            mode: self.mode.clone(),
            language: self.language.clone(),
            model_size: self.model_size.clone(),
            created_at: self.created_at.clone(),
            segment_count: self.segment_count,
            duration_sec_bits: self.duration_sec_bits,
            has_memo: self.has_memo,
        }
    }
}

pub open spec fn entry_views(v: Seq<HistoryEntry>) -> Seq<EntryView> {
    v.map_values(|e: HistoryEntry| e@)
}

/// What the history reads from a transcript's `.meta.json` sidecar: each string field
/// when present as a string, each number when present as one.
pub struct MetaFields {
    pub file_hash: Option<String>,
    pub source_path: Option<String>,
    pub source_name: Option<String>,
    pub engine: Option<String>,
    pub mode: Option<String>,
    pub language: Option<String>,
    pub model_size: Option<String>,
    pub created_at: Option<String>,
    pub segment_count: Option<u64>,
    pub duration_sec_bits: Option<u64>,
}

/// What the history reads from a transcript file without a sidecar: its `engine` when a
/// string, and the length of its `segments` when an array.
pub struct TranscriptSummary {
    pub engine: Option<String>,
    pub segment_count: Option<u64>,
}

/// One entry of the cache directory, with what was read from it.
pub struct CacheFile {
    /// The file name.
    pub name: String,
    /// For a `.meta.json` file that could be read and parsed: its fields.
    pub meta: Option<MetaFields>,
    /// For such a file: whether `<file_hash>.json` exists in the directory.
    pub transcript_exists: bool,
    /// For another `.json` file that could be read and parsed: its summary.
    pub summary: Option<TranscriptSummary>,
    /// Its modification time in whole seconds since the epoch, when known.
    pub modified_secs: Option<i64>,
}

/// The fields read from a sidecar (`MetaFields`), as values.
pub struct MetaView {
    pub file_hash: Option<Seq<char>>,
    pub source_path: Option<Seq<char>>,
    pub source_name: Option<Seq<char>>,
    pub engine: Option<Seq<char>>,
    pub mode: Option<Seq<char>>,
    pub language: Option<Seq<char>>,
    pub model_size: Option<Seq<char>>,
    pub created_at: Option<Seq<char>>,
    pub segment_count: Option<u64>,
    pub duration_sec_bits: Option<u64>,
}

impl View for MetaFields {
    type V = MetaView;

    open spec fn view(&self) -> MetaView {
        MetaView {
            file_hash: opt_str(self.file_hash),
            source_path: opt_str(self.source_path),
            source_name: opt_str(self.source_name),
            engine: opt_str(self.engine),
            mode: opt_str(self.mode),
            language: opt_str(self.language),
            model_size: opt_str(self.model_size),
            created_at: opt_str(self.created_at),
            segment_count: self.segment_count,
            duration_sec_bits: self.duration_sec_bits,
        }
    }
}

/// What was read from a transcript file without a sidecar (`TranscriptSummary`), as
/// values.
pub struct SummaryView {
    pub engine: Option<Seq<char>>,
    pub segment_count: Option<u64>,
}

impl View for TranscriptSummary {
    type V = SummaryView;

    open spec fn view(&self) -> SummaryView {
        SummaryView { engine: opt_str(self.engine), segment_count: self.segment_count }
    }
}

/// A file of the cache directory with what was read from it (`CacheFile`), as values.
pub struct CacheFileView {
    pub name: Seq<char>,
    pub meta: Option<MetaView>,
    pub transcript_exists: bool,
    pub summary: Option<SummaryView>,
    pub modified_secs: Option<i64>,
}

pub open spec fn opt_meta(m: Option<MetaFields>) -> Option<MetaView> {
    match m {
        Some(x) => Some(x@),
        None => None,
    }
}

impl View for CacheFile {
    type V = CacheFileView;

    open spec fn view(&self) -> CacheFileView {
        CacheFileView {
            name: self.name@,
            meta: opt_meta(self.meta),
            transcript_exists: self.transcript_exists,
            summary: match self.summary {
                Some(s) => Some(s@),
                None => None,
            },
            modified_secs: self.modified_secs,
        }
    }
}

pub open spec fn file_views(s: Seq<CacheFile>) -> Seq<CacheFileView> {
    s.map_values(|f: CacheFile| f@)
}

pub open spec fn or_empty(o: Option<Seq<char>>) -> Seq<char> {
    match o {
        Some(s) => s,
        None => Seq::empty(),
    }
}

pub open spec fn or_zero(o: Option<u64>) -> u64 {
    match o {
        Some(n) => n,
        None => 0,
    }
}

fn string_or_empty(o: &Option<String>) -> (r: String)
    ensures
        r@ == or_empty(opt_str(*o)),
{
    match o {
        Some(s) => s.clone(),
        None => String::new(),
    }
}

fn number_or_zero(o: &Option<u64>) -> (r: u64)
    ensures
        r == or_zero(*o),
{
    match o {
        Some(n) => *n,
        None => 0,
    }
}

/// The history entry of a transcript described by its sidecar.
pub open spec fn meta_entry(m: MetaView, has_memo: bool) -> EntryView {
    EntryView {
        file_hash: or_empty(m.file_hash),
        source_path: or_empty(m.source_path),
        source_name: or_empty(m.source_name),
        engine: or_empty(m.engine),
        mode: or_empty(m.mode),
        language: or_empty(m.language),
        model_size: or_empty(m.model_size),
        created_at: or_empty(m.created_at),
        segment_count: or_zero(m.segment_count),
        duration_sec_bits: or_zero(m.duration_sec_bits),
        has_memo,
    }
}

/// A sidecar that yields an entry: a `.meta.json` file, read and parsed, naming a
/// non-empty hash whose transcript file exists.
pub open spec fn yields_meta_entry(f: CacheFileView) -> bool {
    &&& has_suffix(f.name, ".meta.json"@)
    &&& f.meta is Some
    &&& or_empty(f.meta->0.file_hash).len() > 0
    &&& f.transcript_exists
}

/// The entries described by sidecars, in directory order.
pub open spec fn meta_entries(files: Seq<CacheFileView>, names: Seq<Seq<char>>) -> Seq<EntryView>
    decreases files.len(),
{
    if files.len() == 0 {
        Seq::empty()
    } else {
        let r = meta_entries(files.drop_last(), names);
        let f = files.last();
        if yields_meta_entry(f) {
            r.push(
                meta_entry(f.meta->0, has_memo_spec(names, or_empty(f.meta->0.source_name))),
            )
        } else {
            r
        }
    }
}

/// `s` with every trailing copy of `p` removed (`str::trim_end_matches`).
pub open spec fn strip_all_suffix(s: Seq<char>, p: Seq<char>) -> Seq<char>
    decreases s.len(),
{
    if p.len() > 0 && has_suffix(s, p) {
        strip_all_suffix(s.take(s.len() - p.len()), p)
    } else {
        s
    }
}

/// A transcript file of the older layout: a `.json` file that is neither a sidecar nor a
/// memo's transcript copy.
pub open spec fn is_legacy_name(name: Seq<char>) -> bool {
    has_suffix(name, ".json"@) && !has_suffix(name, ".meta.json"@) && !has_suffix(
        name,
        ".transcript.json"@,
    )
}

/// The entry shown for a transcript file without a sidecar.
pub open spec fn legacy_entry(f: CacheFileView) -> EntryView {
    EntryView {
        file_hash: strip_all_suffix(f.name, ".json"@),
        source_path: Seq::empty(),
        source_name: "Unknown"@,
        engine: match f.summary {
            Some(t) => or_empty(t.engine),
            None => Seq::empty(),
        },
        mode: Seq::empty(),
        language: Seq::empty(),
        model_size: Seq::empty(),
        created_at: match f.modified_secs {
            Some(secs) => iso_of(secs as int),
            None => Seq::empty(),
        },
        segment_count: match f.summary {
            Some(t) => or_zero(t.segment_count),
            None => 0,
        },
        duration_sec_bits: 0,
        has_memo: false,
    }
}

/// Some entry has this hash.
pub open spec fn has_hash(entries: Seq<EntryView>, h: Seq<char>) -> bool {
    exists|i: int| 0 <= i < entries.len() && #[trigger] entries[i].file_hash == h
}

/// The entries of older transcript files whose hash no sidecar entry has.
pub open spec fn legacy_entries(files: Seq<CacheFileView>, known: Seq<EntryView>) -> Seq<EntryView>
    decreases files.len(),
{
    if files.len() == 0 {
        Seq::empty()
    } else {
        let r = legacy_entries(files.drop_last(), known);
        let f = files.last();
        if is_legacy_name(f.name) && !has_hash(known, strip_all_suffix(f.name, ".json"@)) {
            r.push(legacy_entry(f))
        } else {
            r
        }
    }
}

/// `x` placed into a list ordered newest first, after every entry not older than it.
pub open spec fn insert_desc(s: Seq<EntryView>, x: EntryView) -> Seq<EntryView>
    decreases s.len(),
{
    if s.len() == 0 {
        seq![x]
    } else if lex_lt(s[0].created_at, x.created_at) {
        seq![x] + s
    } else {
        seq![s[0]] + insert_desc(s.drop_first(), x)
    }
}

/// The entries ordered newest first by creation time, equal times in their given order
/// (a stable sort).
pub open spec fn sort_desc(s: Seq<EntryView>) -> Seq<EntryView>
    decreases s.len(),
{
    if s.len() == 0 {
        Seq::empty()
    } else {
        insert_desc(sort_desc(s.drop_last()), s.last())
    }
}

/// The history of the cache directory: entries from sidecars, then those of older
/// transcript files without one, all ordered newest first.
pub open spec fn history_spec(files: Seq<CacheFileView>) -> Seq<EntryView> {
    let names = files.map_values(|f: CacheFileView| f.name);
    let known = meta_entries(files, names);
    sort_desc(known + legacy_entries(files, known))
}

/// Every modification time given falls within the calendar.
pub open spec fn times_fit(files: Seq<CacheFileView>) -> bool {
    forall|i: int|
        0 <= i < files.len() ==> match #[trigger] files[i].modified_secs {
            Some(secs) => secs >= 0 && secs / 86400 < last_day(),
            None => true,
        }
}

fn entry_from_meta(m: &MetaFields, has_memo: bool) -> (e: HistoryEntry)
    ensures
        e@ == meta_entry(m@, has_memo),
{
    HistoryEntry {
        file_hash: string_or_empty(&m.file_hash),
        source_path: string_or_empty(&m.source_path),
        source_name: string_or_empty(&m.source_name),
        engine: string_or_empty(&m.engine),
        mode: string_or_empty(&m.mode),
        language: string_or_empty(&m.language),
        model_size: string_or_empty(&m.model_size),
        created_at: string_or_empty(&m.created_at),
        segment_count: number_or_zero(&m.segment_count),
        duration_sec_bits: number_or_zero(&m.duration_sec_bits),
        has_memo,
    }
}

/// `s` with every trailing copy of `p` removed.
pub fn trim_end_matches(s: &str, p: &str) -> (r: String)
    ensures
        r@ == strip_all_suffix(s@, p@),
{
    let v = chars_of(s);
    let pl = p.unicode_len();
    let mut end = v.len();
    assert(v@.take(v.len() as int) == v@);
    if pl == 0 {
        return String::from_str(s);
    }
    loop
        invariant
            end <= v.len(),
            pl == p@.len(),
            pl > 0,
            strip_all_suffix(s@, p@) == strip_all_suffix(v@.take(end as int), p@),
            v@ == s@,
        decreases end,
    {
        let cur = string_from(&v, 0, end);
        assert(v@.subrange(0, end as int) == v@.take(end as int));
        if ends_with(cur.as_str(), p) {
            assert(v@.take(end as int).take(end - pl) == v@.take(end - pl));
            end = end - pl;
        } else {
            return cur;
        }
    }
}

fn legacy_entry_of(f: &CacheFile) -> (e: HistoryEntry)
    requires
        match f.modified_secs {
            Some(secs) => secs >= 0 && secs / 86400 < last_day(),
            None => true,
        },
    ensures
        e@ == legacy_entry(f@),
{
    let (engine, count) = match &f.summary {
        Some(t) => (string_or_empty(&t.engine), number_or_zero(&t.segment_count)),
        None => (String::new(), 0),
    };
    HistoryEntry {
        file_hash: trim_end_matches(f.name.as_str(), ".json"),
        source_path: String::new(),
        source_name: String::from_str("Unknown"),
        engine,
        mode: String::new(),
        language: String::new(),
        model_size: String::new(),
        created_at: match f.modified_secs {
            Some(secs) => iso_from_epoch(secs),
            None => String::new(),
        },
        segment_count: count,
        duration_sec_bits: 0,
        has_memo: false,
    }
}

fn contains_hash(entries: &Vec<HistoryEntry>, h: &str) -> (r: bool)
    ensures
        r == has_hash(entry_views(entries@), h@),
{
    let mut i: usize = 0;
    while i < entries.len()
        invariant
            i <= entries.len(),
            forall|k: int| 0 <= k < i ==> #[trigger] entries@[k].file_hash@ != h@,
        decreases entries.len() - i,
    {
        if crate::text::str_eq(entries[i].file_hash.as_str(), h) {
            assert(entry_views(entries@)[i as int].file_hash == h@);
            return true;
        }
        i = i + 1;
    }
    assert forall|k: int| 0 <= k < entries.len() implies #[trigger] entry_views(entries@)[k].file_hash != h@ by {
        assert(entry_views(entries@)[k] == entries@[k]@);
    }
    false
}

proof fn lemma_insert_at(s: Seq<EntryView>, x: EntryView, k: int)
    requires
        0 <= k <= s.len(),
        forall|j: int| 0 <= j < k ==> !lex_lt(#[trigger] s[j].created_at, x.created_at),
        k < s.len() ==> lex_lt(s[k].created_at, x.created_at),
    ensures
        insert_desc(s, x) == s.take(k).push(x) + s.skip(k),
    decreases k,
{
    if k == 0 {
        assert(s.take(0).push(x) + s.skip(0) =~= seq![x] + s);
    } else {
        let t = s.drop_first();
        assert forall|j: int| 0 <= j < k - 1 implies !lex_lt(#[trigger] t[j].created_at, x.created_at) by {
            assert(t[j] == s[j + 1]);
        }
        lemma_insert_at(t, x, k - 1);
        assert(seq![s[0]] + (t.take(k - 1).push(x) + t.skip(k - 1)) =~= s.take(k).push(x) + s.skip(k));
    }
}

/// Adds `e` to a list ordered newest first, after every entry not older than it.
fn insert_newest_first(sorted: &mut Vec<HistoryEntry>, e: HistoryEntry)
    ensures
        entry_views(final(sorted)@) == insert_desc(entry_views(old(sorted)@), e@),
{
    let ghost s = entry_views(sorted@);
    let mut k: usize = 0;
    while k < sorted.len() && !lex_less(sorted[k].created_at.as_str(), e.created_at.as_str())
        invariant
            k <= sorted.len(),
            s == entry_views(sorted@),
            sorted@ == old(sorted)@,
            forall|j: int| 0 <= j < k ==> !lex_lt(#[trigger] s[j].created_at, e@.created_at),
        decreases sorted.len() - k,
    {
        assert(s[k as int] == sorted@[k as int]@);
        k = k + 1;
    }
    proof {
        if k < sorted.len() {
            assert(s[k as int] == sorted@[k as int]@);
        }
        lemma_insert_at(s, e@, k as int);
    }
    sorted.insert(k, e);
    assert(entry_views(sorted@) =~= s.take(k as int).push(e@) + s.skip(k as int));
}

/// The history list of the cache directory, given its files and what was read from them.
pub fn list_transcripts(files: &Vec<CacheFile>) -> (r: Vec<HistoryEntry>)
    requires
        times_fit(file_views(files@)),
    ensures
        entry_views(r@) == history_spec(file_views(files@)),
{
    let ghost fs = file_views(files@);
    let ghost names_spec = fs.map_values(|f: CacheFileView| f.name);
    let mut names: Vec<String> = Vec::new();
    let mut i: usize = 0;
    while i < files.len()
        invariant
            i <= files.len(),
            fs == file_views(files@),
            names_spec == fs.map_values(|f: CacheFileView| f.name),
            views(names@) == names_spec.take(i as int),
        decreases files.len() - i,
    {
        let ghost b = views(names@);
        names.push(files[i].name.clone());
        assert(names_spec[i as int] == files@[i as int].name@);
        assert(views(names@) =~= b.push(files@[i as int].name@));
        assert(names_spec.take(i + 1) =~= names_spec.take(i as int).push(names_spec[i as int]));
        i = i + 1;
    }
    assert(names_spec.take(files.len() as int) == names_spec);
    // entries described by sidecars
    let mut known: Vec<HistoryEntry> = Vec::new();
    let mut i: usize = 0;
    assert(fs.take(0) =~= Seq::<CacheFileView>::empty());
    assert(entry_views(known@) =~= Seq::<EntryView>::empty());
    while i < files.len()
        invariant
            i <= files.len(),
            fs == file_views(files@),
            views(names@) == names_spec,
            names_spec == fs.map_values(|f: CacheFileView| f.name),
            entry_views(known@) == meta_entries(fs.take(i as int), names_spec),
        decreases files.len() - i,
    {
        let f = &files[i];
        assert(fs.take(i + 1).drop_last() == fs.take(i as int));
        assert(fs.take(i + 1).last() == f@);
        if ends_with(f.name.as_str(), ".meta.json") {
            match &f.meta {
                Some(m) => {
                    let hash = string_or_empty(&m.file_hash);
                    if hash.as_str().unicode_len() > 0 && f.transcript_exists {
                        let source = string_or_empty(&m.source_name);
                        let memo = has_memo_for(&names, source.as_str());
                        let e = entry_from_meta(m, memo);
                        let ghost b = entry_views(known@);
                        known.push(e);
                        assert(entry_views(known@) =~= b.push(e@));
                    }
                },
                None => {},
            }
        }
        i = i + 1;
    }
    assert(fs.take(files.len() as int) == fs);
    let ghost known_spec = entry_views(known@);
    // older transcript files without a sidecar
    let mut legacy: Vec<HistoryEntry> = Vec::new();
    let mut i: usize = 0;
    assert(entry_views(legacy@) =~= Seq::<EntryView>::empty());
    while i < files.len()
        invariant
            i <= files.len(),
            fs == file_views(files@),
            times_fit(fs),
            known_spec == entry_views(known@),
            entry_views(legacy@) == legacy_entries(fs.take(i as int), known_spec),
        decreases files.len() - i,
    {
        let f = &files[i];
        assert(fs.take(i + 1).drop_last() == fs.take(i as int));
        assert(fs.take(i + 1).last() == f@);
        let n = f.name.as_str();
        if ends_with(n, ".json") && !ends_with(n, ".meta.json") && !ends_with(n, ".transcript.json") {
            let h = trim_end_matches(n, ".json");
            if !contains_hash(&known, h.as_str()) {
                assert(match fs[i as int].modified_secs {
                    Some(secs) => secs >= 0 && secs / 86400 < last_day(),
                    None => true,
                });
                let e = legacy_entry_of(f);
                let ghost b = entry_views(legacy@);
                legacy.push(e);
                assert(entry_views(legacy@) =~= b.push(e@));
            }
        }
        i = i + 1;
    }
    assert(fs.take(files.len() as int) == fs);
    // all entries, newest first
    let ghost all = known_spec + entry_views(legacy@);
    let mut entries = known;
    entries.append(&mut legacy);
    assert(entry_views(entries@) =~= all);
    let mut sorted: Vec<HistoryEntry> = Vec::new();
    assert(all.take(0) =~= Seq::<EntryView>::empty());
    assert(entry_views(sorted@) =~= Seq::<EntryView>::empty());
    let mut k: usize = 0;
    while k < entries.len()
        invariant
            k <= entries.len(),
            all == entry_views(entries@),
            entry_views(sorted@) == sort_desc(all.take(k as int)),
        decreases entries.len() - k,
    {
        assert(all.take(k + 1).drop_last() == all.take(k as int));
        assert(all.take(k + 1).last() == entries@[k as int]@);
        insert_newest_first(&mut sorted, entries[k].duplicate());
        k = k + 1;
    }
    assert(all.take(entries.len() as int) == all);
    sorted
}

/// A file of the cache directory as read from disk: its name, its text when it is a
/// `.json` file that could be read, whether the transcript its sidecar names exists (see
/// [`sidecar_transcript`]; `false` for other files), and its modification time in whole
/// seconds since the epoch, when known.
pub struct DirFile {
    pub name: String,
    pub text: Option<String>,
    pub transcript_exists: bool,
    pub modified_secs: Option<i64>,
}

/// The text of a file, when it is JSON.
pub open spec fn json_text(text: Option<String>) -> Option<Seq<char>> {
    match text {
        Some(t) => if json_parse_error(t@) is None {
            Some(t@)
        } else {
            None
        },
        None => None,
    }
}

/// The sidecar fields of a JSON text.
pub open spec fn meta_of_text(t: Seq<char>) -> MetaView {
    MetaView {
        file_hash: flat(json_str_field(t, "file_hash"@)),
        source_path: flat(json_str_field(t, "source_path"@)),
        source_name: flat(json_str_field(t, "source_name"@)),
        engine: flat(json_str_field(t, "engine"@)),
        mode: flat(json_str_field(t, "mode"@)),
        language: flat(json_str_field(t, "language"@)),
        model_size: flat(json_str_field(t, "model_size"@)),
        created_at: flat(json_str_field(t, "created_at"@)),
        segment_count: flat(json_u64_field(t, "segment_count"@)),
        duration_sec_bits: flat(json_f64_bits_field(t, "duration_sec"@)),
    }
}

/// The summary of a transcript's JSON text: its `engine` and number of `segments`.
pub open spec fn summary_of_text(t: Seq<char>) -> SummaryView {
    SummaryView {
        engine: flat(json_str_field(t, "engine"@)),
        segment_count: flat(json_array_len_field(t, "segments"@)),
    }
}

/// For a sidecar that is JSON: the file name of the transcript it describes,
/// `<file_hash>.json`.
pub open spec fn sidecar_transcript_spec(name: Seq<char>, text: Option<String>) -> Option<Seq<char>> {
    if has_suffix(name, ".meta.json"@) && json_text(text) is Some {
        Some(or_empty(meta_of_text(json_text(text)->0).file_hash) + ".json"@)
    } else {
        None
    }
}

/// What the history reads from a file: a sidecar's fields and whether its transcript
/// exists; a transcript's summary.
pub open spec fn cache_file_of(f: DirFile) -> CacheFileView {
    let meta = if has_suffix(f.name@, ".meta.json"@) && json_text(f.text) is Some {
        Some(meta_of_text(json_text(f.text)->0))
    } else {
        None::<MetaView>
    };
    CacheFileView {
        name: f.name@,
        meta,
        transcript_exists: meta is Some && f.transcript_exists,
        summary: if is_legacy_name(f.name@) && json_text(f.text) is Some {
            Some(summary_of_text(json_text(f.text)->0))
        } else {
            None
        },
        modified_secs: f.modified_secs,
    }
}

pub open spec fn cache_files_of(files: Seq<DirFile>) -> Seq<CacheFileView> {
    files.map_values(|f: DirFile| cache_file_of(f))
}

fn flat_str(o: Option<Option<String>>) -> (r: Option<String>)
    ensures
        opt_str(r) == flat(crate::json::opt_opt_str(o)),
{
    match o {
        Some(Some(s)) => Some(s),
        _ => None,
    }
}

fn flat_u64(o: Option<Option<u64>>) -> (r: Option<u64>)
    ensures
        r == flat(o),
{
    match o {
        Some(Some(n)) => Some(n),
        _ => None,
    }
}

fn read_meta(t: &str) -> (m: MetaFields)
    ensures
        m@ == meta_of_text(t@),
{
    MetaFields {
        file_hash: flat_str(parse_str_field(t, "file_hash")),
        source_path: flat_str(parse_str_field(t, "source_path")),
        source_name: flat_str(parse_str_field(t, "source_name")),
        engine: flat_str(parse_str_field(t, "engine")),
        mode: flat_str(parse_str_field(t, "mode")),
        language: flat_str(parse_str_field(t, "language")),
        model_size: flat_str(parse_str_field(t, "model_size")),
        created_at: flat_str(parse_str_field(t, "created_at")),
        segment_count: flat_u64(parse_u64_field(t, "segment_count")),
        duration_sec_bits: flat_u64(parse_f64_bits_field(t, "duration_sec")),
    }
}

/// The transcript file a sidecar describes, whose existence the history needs to know.
pub fn sidecar_transcript(name: &str, text: &Option<String>) -> (r: Option<String>)
    ensures
        opt_str(r) == sidecar_transcript_spec(name@, *text),
{
    match text {
        Some(t) => if ends_with(name, ".meta.json") && json_error(t.as_str()).is_none() {
            let m = read_meta(t.as_str());
            let hash = string_or_empty(&m.file_hash);
            Some(concat(hash.as_str(), ".json"))
        } else {
            None
        },
        None => None,
    }
}

fn cache_file_from(f: &DirFile) -> (c: CacheFile)
    ensures
        c@ == cache_file_of(*f),
{
    let parsed = match &f.text {
        Some(t) => json_error(t.as_str()).is_none(),
        None => false,
    };
    let n = f.name.as_str();
    let meta = if ends_with(n, ".meta.json") && parsed {
        match &f.text {
            Some(t) => Some(read_meta(t.as_str())),
            None => None,
        }
    } else {
        None
    };
    let transcript_exists = meta.is_some() && f.transcript_exists;
    let summary = if ends_with(n, ".json") && !ends_with(n, ".meta.json") && !ends_with(n, ".transcript.json")
        && parsed {
        match &f.text {
            Some(t) => Some(
                TranscriptSummary {
                    engine: flat_str(parse_str_field(t.as_str(), "engine")),
                    segment_count: flat_u64(parse_array_len_field(t.as_str(), "segments")),
                },
            ),
            None => None,
        }
    } else {
        None
    };
    CacheFile { name: f.name.clone(), meta, transcript_exists, summary, modified_secs: f.modified_secs }
}

/// Every modification time given falls within the calendar.
pub open spec fn dir_times_fit(files: Seq<DirFile>) -> bool {
    forall|i: int|
        0 <= i < files.len() ==> match #[trigger] files[i].modified_secs {
            Some(secs) => secs >= 0 && secs / 86400 < last_day(),
            None => true,
        }
}

/// The history list of the cache directory, given its files as read from disk.
pub fn list_transcripts_in(files: &Vec<DirFile>) -> (r: Vec<HistoryEntry>)
    requires
        dir_times_fit(files@),
    ensures
        entry_views(r@) == history_spec(cache_files_of(files@)),
{
    let ghost want = cache_files_of(files@);
    let mut cfs: Vec<CacheFile> = Vec::new();
    let mut i: usize = 0;
    while i < files.len()
        invariant
            i <= files.len(),
            want == cache_files_of(files@),
            file_views(cfs@) == want.take(i as int),
        decreases files.len() - i,
    {
        let c = cache_file_from(&files[i]);
        let ghost b = file_views(cfs@);
        cfs.push(c);
        assert(file_views(cfs@) =~= b.push(c@));
        assert(want.take(i + 1) =~= want.take(i as int).push(want[i as int]));
        i = i + 1;
    }
    assert(want.take(files.len() as int) == want);
    assert(file_views(cfs@) == want);
    assert forall|k: int| 0 <= k < want.len() implies match #[trigger] want[k].modified_secs {
        Some(secs) => secs >= 0 && secs / 86400 < last_day(),
        None => true,
    } by {
        assert(want[k].modified_secs == files@[k].modified_secs);
    }
    list_transcripts(&cfs)
}

// ---------------------------------------------------------------------------
// Order of the history
// ---------------------------------------------------------------------------

proof fn lemma_lex_irreflexive(a: Seq<char>)
    ensures
        !lex_lt(a, a),
    decreases a.len(),
{
    if a.len() > 0 {
        lemma_lex_irreflexive(a.drop_first());
    }
}

proof fn lemma_lex_asymmetric(a: Seq<char>, b: Seq<char>)
    requires
        lex_lt(a, b),
    ensures
        !lex_lt(b, a),
    decreases a.len(),
{
    if a.len() > 0 && b.len() > 0 && a[0] == b[0] {
        lemma_lex_asymmetric(a.drop_first(), b.drop_first());
    }
}

proof fn lemma_lex_transitive(a: Seq<char>, b: Seq<char>, c: Seq<char>)
    requires
        lex_lt(a, b),
        lex_lt(b, c),
    ensures
        lex_lt(a, c),
    decreases a.len(),
{
    if a.len() > 0 && b.len() > 0 && c.len() > 0 && a[0] == b[0] && b[0] == c[0] {
        lemma_lex_transitive(a.drop_first(), b.drop_first(), c.drop_first());
    }
}

proof fn lemma_lex_total(a: Seq<char>, b: Seq<char>)
    requires
        a != b,
    ensures
        lex_lt(a, b) || lex_lt(b, a),
    decreases a.len(),
{
    if a.len() > 0 && b.len() > 0 && a[0] == b[0] {
        if a.drop_first() == b.drop_first() {
            assert(a =~= seq![a[0]] + a.drop_first());
            assert(b =~= seq![b[0]] + b.drop_first());
        }
        lemma_lex_total(a.drop_first(), b.drop_first());
    } else if a.len() > 0 && b.len() > 0 {
        vstd::utf8::char_u32_cast(a[0], a[0] as u32);
        vstd::utf8::char_u32_cast(b[0], b[0] as u32);
        assert(a[0] as u32 != b[0] as u32);
    } else if a.len() == 0 && b.len() == 0 {
        assert(a =~= b);
    }
}

/// Not older: `b` was created no later than `a`.
/// Ordered newest first: no entry is older than one after it.
pub open spec fn newest_first(s: Seq<EntryView>) -> bool {
    forall|i: int, j: int| 0 <= i < j < s.len() ==> !lex_lt(#[trigger] s[i].created_at, #[trigger] s[j].created_at)
}

proof fn lemma_insert_desc_multiset(s: Seq<EntryView>, x: EntryView)
    ensures
        insert_desc(s, x).to_multiset() == s.to_multiset().insert(x),
    decreases s.len(),
{
    broadcast use vstd::seq_lib::group_to_multiset_ensures;
    if s.len() == 0 {
        assert(seq![x] =~= Seq::<EntryView>::empty().push(x));
    } else if lex_lt(s[0].created_at, x.created_at) {
        vstd::seq_lib::lemma_multiset_commutative(seq![x], s);
        assert(seq![x] =~= Seq::<EntryView>::empty().push(x));
    } else {
        let t = s.drop_first();
        lemma_insert_desc_multiset(t, x);
        vstd::seq_lib::lemma_multiset_commutative(seq![s[0]], insert_desc(t, x));
        vstd::seq_lib::lemma_multiset_commutative(seq![s[0]], t);
        assert(seq![s[0]] + t =~= s);
        assert(seq![s[0]] =~= Seq::<EntryView>::empty().push(s[0]));
    }
}

proof fn lemma_insert_desc_sorted(s: Seq<EntryView>, x: EntryView)
    requires
        newest_first(s),
    ensures
        newest_first(insert_desc(s, x)),
    decreases s.len(),
{
    broadcast use vstd::seq_lib::group_to_multiset_ensures;
    if s.len() == 0 {
    } else if lex_lt(s[0].created_at, x.created_at) {
        let r = seq![x] + s;
        assert forall|i: int, j: int| 0 <= i < j < r.len() implies !lex_lt(#[trigger] r[i].created_at, #[trigger] r[j].created_at) by {
            if i == 0 {
                if j > 1 {
                    assert(!lex_lt(s[0].created_at, s[j - 1].created_at));
                }
                let y = r[j].created_at;
                if lex_lt(x.created_at, y) {
                    // y is not newer than s[0], which is older than x
                    if j == 1 {
                        lemma_lex_asymmetric(s[0].created_at, x.created_at);
                    } else {
                        lemma_lex_transitive(s[0].created_at, x.created_at, y);
                    }
                }
            } else {
                assert(r[i] == s[i - 1] && r[j] == s[j - 1]);
            }
        }
    } else {
        let t = s.drop_first();
        assert forall|i: int, j: int| 0 <= i < j < t.len() implies !lex_lt(#[trigger] t[i].created_at, #[trigger] t[j].created_at) by {
            assert(t[i] == s[i + 1] && t[j] == s[j + 1]);
        }
        lemma_insert_desc_sorted(t, x);
        lemma_insert_desc_multiset(t, x);
        let u = insert_desc(t, x);
        let r = seq![s[0]] + u;
        assert forall|i: int, j: int| 0 <= i < j < r.len() implies !lex_lt(#[trigger] r[i].created_at, #[trigger] r[j].created_at) by {
            if i == 0 {
                let y = u[j - 1];
                assert(u.to_multiset().contains(y));
                assert(t.to_multiset().insert(x).contains(y));
                if y == x {
                } else {
                    assert(t.to_multiset().contains(y));
                    assert(t.contains(y));
                    let k = choose|k: int| 0 <= k < t.len() && t[k] == y;
                    assert(s[k + 1] == y);
                }
            } else {
                assert(r[i] == u[i - 1] && r[j] == u[j - 1]);
            }
        }
    }
}

/// The history order is newest first and keeps every entry: sorting gives an ordering
/// in which no entry is older than one after it, holding the same entries.
pub proof fn lemma_sort_desc(s: Seq<EntryView>)
    ensures
        newest_first(sort_desc(s)),
        sort_desc(s).to_multiset() == s.to_multiset(),
    decreases s.len(),
{
    broadcast use vstd::seq_lib::group_to_multiset_ensures;
    if s.len() > 0 {
        lemma_sort_desc(s.drop_last());
        lemma_insert_desc_sorted(sort_desc(s.drop_last()), s.last());
        lemma_insert_desc_multiset(sort_desc(s.drop_last()), s.last());
        assert(s =~= s.drop_last().push(s.last()));
    }
}

/// The entry shows a sidecar's own fields: each text field the sidecar's string of that
/// name (empty when it has none), the segment count and duration its numbers (zero when
/// absent).
pub open spec fn copies_sidecar(e: EntryView, m: MetaView) -> bool {
    &&& e.file_hash == or_empty(m.file_hash)
    &&& e.source_path == or_empty(m.source_path)
    &&& e.source_name == or_empty(m.source_name)
    &&& e.engine == or_empty(m.engine)
    &&& e.mode == or_empty(m.mode)
    &&& e.language == or_empty(m.language)
    &&& e.model_size == or_empty(m.model_size)
    &&& e.created_at == or_empty(m.created_at)
    &&& e.segment_count == or_zero(m.segment_count)
    &&& e.duration_sec_bits == or_zero(m.duration_sec_bits)
}

/// The entry stands for an older transcript file without a sidecar: named by the file's
/// name without `.json`, from an unknown source, with no mode, language, model size,
/// duration or memo.
pub open spec fn stands_for_legacy_file(e: EntryView, f: CacheFileView) -> bool {
    &&& is_legacy_name(f.name)
    &&& e.file_hash == strip_all_suffix(f.name, ".json"@)
    &&& e.source_path.len() == 0
    &&& e.source_name == "Unknown"@
    &&& e.mode.len() == 0
    &&& e.language.len() == 0
    &&& e.model_size.len() == 0
    &&& e.duration_sec_bits == 0
    &&& !e.has_memo
    &&& e.engine == match f.summary {
        Some(s) => or_empty(s.engine),
        None => Seq::empty(),
    }
    &&& e.segment_count == match f.summary {
        Some(s) => or_zero(s.segment_count),
        None => 0,
    }
    &&& e.created_at == match f.modified_secs {
        Some(secs) => iso_of(secs as int),
        None => Seq::empty(),
    }
}

proof fn lemma_meta_entries_from(files: Seq<CacheFileView>, names: Seq<Seq<char>>, e: EntryView)
    requires
        meta_entries(files, names).contains(e),
    ensures
        exists|i: int|
            0 <= i < files.len() && yields_meta_entry(#[trigger] files[i]) && copies_sidecar(e, files[i].meta->0)
                && e.has_memo == has_memo_spec(names, e.source_name),
    decreases files.len(),
{
    let rest = files.drop_last();
    let r = meta_entries(rest, names);
    let f = files.last();
    if yields_meta_entry(f) {
        let x = meta_entry(f.meta->0, has_memo_spec(names, or_empty(f.meta->0.source_name)));
        let j = choose|j: int| 0 <= j < r.push(x).len() && r.push(x)[j] == e;
        if j == r.len() {
            assert(files[files.len() - 1] == f);
            assert(copies_sidecar(e, files[files.len() - 1].meta->0));
        } else {
            assert(r[j] == e);
            lemma_meta_entries_from(rest, names, e);
            let i = choose|i: int| 0 <= i < rest.len() && yields_meta_entry(#[trigger] rest[i]) && copies_sidecar(e, rest[i].meta->0) && e.has_memo == has_memo_spec(names, e.source_name);
            assert(files[i] == rest[i]);
        }
    } else {
        lemma_meta_entries_from(rest, names, e);
        let i = choose|i: int| 0 <= i < rest.len() && yields_meta_entry(#[trigger] rest[i]) && copies_sidecar(e, rest[i].meta->0) && e.has_memo == has_memo_spec(names, e.source_name);
        assert(files[i] == rest[i]);
    }
}

proof fn lemma_legacy_entries_from(files: Seq<CacheFileView>, known: Seq<EntryView>, e: EntryView)
    requires
        legacy_entries(files, known).contains(e),
    ensures
        exists|i: int| 0 <= i < files.len() && stands_for_legacy_file(e, #[trigger] files[i]),
    decreases files.len(),
{
    reveal_strlit("Unknown");
    let rest = files.drop_last();
    let r = legacy_entries(rest, known);
    let f = files.last();
    if is_legacy_name(f.name) && !has_hash(known, strip_all_suffix(f.name, ".json"@)) {
        let x = legacy_entry(f);
        let j = choose|j: int| 0 <= j < r.push(x).len() && r.push(x)[j] == e;
        if j == r.len() {
            assert(files[files.len() - 1] == f);
            assert(stands_for_legacy_file(e, files[files.len() - 1]));
        } else {
            assert(r[j] == e);
            lemma_legacy_entries_from(rest, known, e);
            let i = choose|i: int| 0 <= i < rest.len() && stands_for_legacy_file(e, #[trigger] rest[i]);
            assert(files[i] == rest[i]);
        }
    } else {
        lemma_legacy_entries_from(rest, known, e);
        let i = choose|i: int| 0 <= i < rest.len() && stands_for_legacy_file(e, #[trigger] rest[i]);
        assert(files[i] == rest[i]);
    }
}

/// Every entry of the history comes from a file of the directory: either it shows the
/// fields of a sidecar that names an existing transcript (its language that sidecar's
/// `language`, its mode that sidecar's `mode`, and so on), and has a memo exactly when a
/// memo file of its source is among the files; or it stands for an older transcript file
/// without a sidecar.
pub proof fn lemma_history_entries_from_files(files: Seq<CacheFileView>, k: int)
    requires
        0 <= k < history_spec(files).len(),
    ensures
        exists|i: int|
            0 <= i < files.len() && ((yields_meta_entry(#[trigger] files[i]) && copies_sidecar(
                history_spec(files)[k],
                files[i].meta->0,
            ) && history_spec(files)[k].has_memo == has_memo_spec(
                files.map_values(|f: CacheFileView| f.name),
                history_spec(files)[k].source_name,
            )) || stands_for_legacy_file(history_spec(files)[k], files[i])),
{
    broadcast use vstd::seq_lib::group_to_multiset_ensures;
    let names = files.map_values(|f: CacheFileView| f.name);
    let known = meta_entries(files, names);
    let legacy = legacy_entries(files, known);
    let all = known + legacy;
    let e = history_spec(files)[k];
    lemma_sort_desc(all);
    assert(sort_desc(all).contains(e));
    assert(all.to_multiset().count(e) > 0);
    assert(all.contains(e));
    let j = choose|j: int| 0 <= j < all.len() && all[j] == e;
    if j < known.len() {
        assert(known[j] == e);
        lemma_meta_entries_from(files, names, e);
    } else {
        assert(legacy[j - known.len()] == e);
        lemma_legacy_entries_from(files, known, e);
    }
}

// ---------------------------------------------------------------------------
// Loading and deleting one transcript
// ---------------------------------------------------------------------------

/// What loading reads from a transcript file: whether it is a bare array of segments,
/// and its `engine` when it is an object holding that string.
pub struct TranscriptShape {
    pub is_array: bool,
    pub engine: Option<String>,
}

/// The engine a loaded transcript is shown with: none for a bare array of segments.
pub open spec fn transcript_engine(t: TranscriptShape) -> Seq<char> {
    if t.is_array {
        Seq::empty()
    } else {
        or_empty(opt_str(t.engine))
    }
}

/// The entry describing a loaded transcript: from its sidecar when that was read, with
/// the transcript's engine where the sidecar names none; else just its hash and engine.
pub open spec fn loaded_meta(hash: Seq<char>, meta: Option<MetaView>, engine: Seq<char>) -> EntryView {
    match meta {
        Some(m) => EntryView {
            file_hash: hash,
            source_path: or_empty(m.source_path),
            source_name: or_empty(m.source_name),
            engine: match m.engine {
                Some(e) => e,
                None => engine,
            },
            mode: or_empty(m.mode),
            language: or_empty(m.language),
            model_size: or_empty(m.model_size),
            created_at: or_empty(m.created_at),
            segment_count: or_zero(m.segment_count),
            duration_sec_bits: or_zero(m.duration_sec_bits),
            has_memo: false,
        },
        None => EntryView {
            file_hash: hash,
            source_path: Seq::empty(),
            source_name: Seq::empty(),
            engine,
            mode: Seq::empty(),
            language: Seq::empty(),
            model_size: Seq::empty(),
            created_at: Seq::empty(),
            segment_count: 0,
            duration_sec_bits: 0,
            has_memo: false,
        },
    }
}

/// The entry of a loaded transcript shows the engine its sidecar names; the transcript's
/// own engine only when the sidecar names none or could not be read. Its other fields
/// are the sidecar's, and its hash the one asked for.
pub proof fn lemma_sidecar_engine_wins(hash: Seq<char>, meta: Option<MetaView>, engine: Seq<char>)
    ensures
        meta matches Some(m) ==> (m.engine matches Some(x) ==> loaded_meta(hash, meta, engine).engine == x),
        meta matches Some(m) ==> (m.engine is None ==> loaded_meta(hash, meta, engine).engine == engine),
        meta is None ==> loaded_meta(hash, meta, engine).engine == engine,
        loaded_meta(hash, meta, engine).file_hash == hash,
        meta matches Some(m) ==> {
            let e = loaded_meta(hash, meta, engine);
            &&& e.source_path == or_empty(m.source_path)
            &&& e.source_name == or_empty(m.source_name)
            &&& e.mode == or_empty(m.mode)
            &&& e.language == or_empty(m.language)
            &&& e.model_size == or_empty(m.model_size)
            &&& e.created_at == or_empty(m.created_at)
        },
{
}

/// A loaded transcript, but for its segments: the engine, the entry describing it, and
/// which of the cache files is the memo to show.
pub struct LoadedTranscript {
    pub engine: String,
    pub meta: HistoryEntry,
    pub memo: Option<usize>,
}

/// What loading the transcript with hash `file_hash` shows, given what its file holds,
/// its sidecar's fields (when read), and the cache files that may be memos.
pub fn load_transcript(
    file_hash: &str,
    shape: &TranscriptShape,
    meta: &Option<MetaFields>,
    memo_files: &Vec<MemoFile>,
) -> (r: LoadedTranscript)
    ensures
        r.engine@ == transcript_engine(*shape),
        r.meta@ == loaded_meta(file_hash@, opt_meta(*meta), transcript_engine(*shape)),
        r.meta@.source_name.len() == 0 ==> r.memo is None,
        r.meta@.source_name.len() > 0 ==> r.memo == match latest_memo_spec(
            memo_files@,
            memo_prefix_of(r.meta@.source_name),
        ) {
            Some(k) => Some(k as usize),
            None => None::<usize>,
        },
{
    let engine = if shape.is_array {
        String::new()
    } else {
        string_or_empty(&shape.engine)
    };
    let entry = match meta {
        Some(m) => HistoryEntry {
            file_hash: String::from_str(file_hash),
            source_path: string_or_empty(&m.source_path),
            source_name: string_or_empty(&m.source_name),
            engine: match &m.engine {
                Some(e) => e.clone(),
                None => engine.clone(),
            },
            mode: string_or_empty(&m.mode),
            language: string_or_empty(&m.language),
            model_size: string_or_empty(&m.model_size),
            created_at: string_or_empty(&m.created_at),
            segment_count: number_or_zero(&m.segment_count),
            duration_sec_bits: number_or_zero(&m.duration_sec_bits),
            has_memo: false,
        },
        None => HistoryEntry {
            file_hash: String::from_str(file_hash),
            source_path: String::new(),
            source_name: String::new(),
            engine: engine.clone(),
            mode: String::new(),
            language: String::new(),
            model_size: String::new(),
            created_at: String::new(),
            segment_count: 0,
            duration_sec_bits: 0,
            has_memo: false,
        },
    };
    let memo = latest_memo(memo_files, entry.source_name.as_str());
    LoadedTranscript { engine, meta: entry, memo }
}

/// The engine of a transcript's JSON text: none for a bare array of segments, else its
/// `engine` string.
pub open spec fn text_engine(t: Seq<char>) -> Seq<char> {
    if json_is_array(t) == Some(true) {
        Seq::empty()
    } else {
        or_empty(flat(json_str_field(t, "engine"@)))
    }
}

/// The sidecar fields read from a sidecar's text, when it was read and is JSON.
pub open spec fn meta_of_opt_text(text: Option<String>) -> Option<MetaView> {
    match json_text(text) {
        Some(t) => Some(meta_of_text(t)),
        None => None,
    }
}

/// What loading the transcript with hash `file_hash` shows, given its file's text, its
/// sidecar's text (when it could be read) and the cache files that may be memos: an
/// error when the transcript is not JSON.
pub fn load_transcript_text(
    file_hash: &str,
    text: &str,
    meta_text: &Option<String>,
    memo_files: &Vec<MemoFile>,
) -> (r: Result<LoadedTranscript, String>)
    ensures
        match json_parse_error(text@) {
            Some(m) => r matches Err(e) && e@ == "Cannot parse transcript: "@ + m,
            None => r matches Ok(l) && {
                &&& l.engine@ == text_engine(text@)
                &&& l.meta@ == loaded_meta(file_hash@, meta_of_opt_text(*meta_text), text_engine(text@))
                &&& l.meta@.source_name.len() == 0 ==> l.memo is None
                &&& l.meta@.source_name.len() > 0 ==> l.memo == match latest_memo_spec(
                    memo_files@,
                    memo_prefix_of(l.meta@.source_name),
                ) {
                    Some(k) => Some(k as usize),
                    None => None::<usize>,
                }
            },
        },
{
    match json_error(text) {
        Some(m) => {
            return Err(concat("Cannot parse transcript: ", m.as_str()));
        },
        None => {},
    }
    let is_array = match parse_is_array(text) {
        Some(b) => b,
        None => false,
    };
    let shape = TranscriptShape {
        is_array,
        engine: if is_array {
            None
        } else {
            flat_str(parse_str_field(text, "engine"))
        },
    };
    let meta = match meta_text {
        Some(mt) => if json_error(mt.as_str()).is_none() {
            Some(read_meta(mt.as_str()))
        } else {
            None
        },
        None => None,
    };
    assert(opt_meta(meta) == meta_of_opt_text(*meta_text));
    assert(transcript_engine(shape) == text_engine(text@));
    Ok(load_transcript(file_hash, &shape, &meta, memo_files))
}

/// The segments of a transcript's JSON text, for showing: the whole value when it is an
/// array, else its `segments` field, else an empty array (`[]` as read by `serde_json`).
/// Nothing when the text is not JSON.
pub open spec fn segments_spec(text: Seq<char>) -> Option<serde_json::Value> {
    match json_is_array(text) {
        None => None,
        Some(true) => json_value(text),
        Some(false) => match json_field_value(text, "segments"@) {
            Some(Some(v)) => Some(v),
            _ => json_value("[]"@),
        },
    }
}

/// The segments of a transcript's JSON text, for showing.
pub fn transcript_segments(text: &str) -> (r: Option<serde_json::Value>)
    ensures
        r == segments_spec(text@),
{
    match parse_is_array(text) {
        None => None,
        Some(true) => parse_value(text),
        Some(false) => match parse_field_value(text, "segments") {
            Some(Some(v)) => Some(v),
            _ => parse_value("[]"),
        },
    }
}

/// The files made for a transcript: its JSON, text, subtitles and sidecar.
pub open spec fn sidecar_names(hash: Seq<char>) -> Seq<Seq<char>> {
    seq![hash + ".json"@, hash + ".txt"@, hash + ".srt"@, hash + ".meta.json"@]
}

/// A memo of the source, or the transcript copy written for making one.
pub open spec fn is_memo_artifact(name: Seq<char>, prefix: Seq<char>) -> bool {
    has_prefix(name, prefix) && (has_suffix(name, ".memo.txt"@) || has_suffix(name, ".transcript.json"@))
}

/// The names among `names` that are memo artifacts of the source, in order.
pub open spec fn memo_artifacts(names: Seq<Seq<char>>, prefix: Seq<char>) -> Seq<Seq<char>>
    decreases names.len(),
{
    if names.len() == 0 {
        Seq::empty()
    } else {
        let r = memo_artifacts(names.drop_last(), prefix);
        if is_memo_artifact(names.last(), prefix) {
            r.push(names.last())
        } else {
            r
        }
    }
}

/// The files removed when deleting a transcript: its own files, then (for a named
/// source) the memo artifacts among the directory's file names.
pub open spec fn delete_targets(hash: Seq<char>, source_name: Seq<char>, names: Seq<Seq<char>>) -> Seq<
    Seq<char>,
> {
    if source_name.len() > 0 {
        sidecar_names(hash) + memo_artifacts(names, memo_prefix_of(source_name))
    } else {
        sidecar_names(hash)
    }
}

/// The names of the files to remove when deleting the transcript with hash `file_hash`
/// of source `source_name`, given the names of the files in the cache directory.
pub fn delete_transcript(file_hash: &str, source_name: &str, dir_names: &Vec<String>) -> (r: Vec<String>)
    ensures
        views(r@) == delete_targets(file_hash@, source_name@, views(dir_names@)),
{
    let mut out: Vec<String> = Vec::new();
    out.push(concat(file_hash, ".json"));
    out.push(concat(file_hash, ".txt"));
    out.push(concat(file_hash, ".srt"));
    out.push(concat(file_hash, ".meta.json"));
    assert(views(out@) =~= sidecar_names(file_hash@));
    if source_name.unicode_len() == 0 {
        return out;
    }
    let prefix = memo_prefix(source_name);
    let ghost ns = views(dir_names@);
    let ghost base = views(out@);
    let mut i: usize = 0;
    assert(ns.take(0) =~= Seq::<Seq<char>>::empty());
    assert(base + memo_artifacts(ns.take(0), prefix@) =~= base);
    while i < dir_names.len()
        invariant
            i <= dir_names.len(),
            ns == views(dir_names@),
            views(out@) == base + memo_artifacts(ns.take(i as int), prefix@),
        decreases dir_names.len() - i,
    {
        let n = dir_names[i].as_str();
        assert(ns.take(i + 1).drop_last() == ns.take(i as int));
        assert(ns.take(i + 1).last() == n@);
        if starts_with(n, prefix.as_str()) && (ends_with(n, ".memo.txt") || ends_with(n, ".transcript.json")) {
            let ghost b = views(out@);
            out.push(dir_names[i].clone());
            assert(views(out@) =~= b.push(n@));
        }
        i = i + 1;
    }
    assert(ns.take(dir_names.len() as int) == ns);
    out
}

proof fn lemma_memo_artifacts_contains(names: Seq<Seq<char>>, prefix: Seq<char>, x: Seq<char>)
    ensures
        memo_artifacts(names, prefix).contains(x) <==> (names.contains(x) && is_memo_artifact(x, prefix)),
    decreases names.len(),
{
    if names.len() > 0 {
        let rest = names.drop_last();
        lemma_memo_artifacts_contains(rest, prefix, x);
        assert(names =~= rest.push(names.last()));
        if names.contains(x) && x != names.last() {
            let i = choose|i: int| 0 <= i < names.len() && names[i] == x;
            assert(rest[i] == x);
        }
        if rest.contains(x) {
            let i = choose|i: int| 0 <= i < rest.len() && rest[i] == x;
            assert(names[i] == x);
        }
        let r = memo_artifacts(rest, prefix);
        if is_memo_artifact(names.last(), prefix) {
            assert(memo_artifacts(names, prefix) == r.push(names.last()));
            assert(r.push(names.last()).last() == names.last());
            if r.contains(x) {
                let i = choose|i: int| 0 <= i < r.len() && r[i] == x;
                assert(r.push(names.last())[i] == x);
            }
            if r.push(names.last()).contains(x) && x != names.last() {
                let i = choose|i: int| 0 <= i < r.len() + 1 && r.push(names.last())[i] == x;
                assert(r[i] == x);
            }
        }
        if names.contains(x) && x == names.last() {
            assert(names[names.len() - 1] == x);
        }
    }
}

/// The names left in a directory once the given names are removed.
pub open spec fn remaining_names(names: Seq<Seq<char>>, removed: Seq<Seq<char>>) -> Seq<Seq<char>> {
    names.filter(|n: Seq<char>| !removed.contains(n))
}

/// Deleting a transcript twice removes nothing the second time: once every file named
/// by a deletion is gone from the directory, a second deletion of the same transcript
/// names no file that is still there.
pub proof fn lemma_delete_twice_removes_nothing(hash: Seq<char>, source_name: Seq<char>, names: Seq<Seq<char>>)
    ensures
        forall|x: Seq<char>|
            #[trigger] delete_targets(
                hash,
                source_name,
                remaining_names(names, delete_targets(hash, source_name, names)),
            ).contains(x) ==> !remaining_names(names, delete_targets(hash, source_name, names)).contains(x),
{
    let first = delete_targets(hash, source_name, names);
    let rest = remaining_names(names, first);
    let pred = |n: Seq<char>| !first.contains(n);
    assert forall|x: Seq<char>| #[trigger] delete_targets(hash, source_name, rest).contains(x) implies !rest.contains(x) by {
        if rest.contains(x) {
            names.lemma_filter_contains_rev(pred, x);
            let i = choose|i: int| 0 <= i < rest.len() && rest[i] == x;
            names.lemma_filter_pred(pred, i);
            assert(!first.contains(x));
            let second = delete_targets(hash, source_name, rest);
            if sidecar_names(hash).contains(x) {
                let k = choose|k: int| 0 <= k < sidecar_names(hash).len() && sidecar_names(hash)[k] == x;
                assert(first[k] == x);
            } else {
                assert(source_name.len() > 0);
                let p = memo_prefix_of(source_name);
                let s2 = sidecar_names(hash);
                let k = choose|k: int| 0 <= k < second.len() && second[k] == x;
                assert(k >= s2.len()) by {
                    if k < s2.len() {
                        assert(s2[k] == x);
                    }
                }
                let m2 = memo_artifacts(rest, p);
                assert(m2[k - s2.len()] == x);
                assert(m2.contains(x));
                lemma_memo_artifacts_contains(rest, p, x);
                lemma_memo_artifacts_contains(names, p, x);
                let m1 = memo_artifacts(names, p);
                let j = choose|j: int| 0 <= j < m1.len() && m1[j] == x;
                assert(first[s2.len() + j] == x);
            }
        }
    }
}

} // verus!
