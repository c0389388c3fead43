//! Parts of the timeline report that involve no floating point: calendar
//! dates of Unix times, the grouping of repeated warnings, the reason given
//! for a slow turn, the pairing of function calls with their outputs, and
//! the sample of model calls shown.

use vstd::prelude::*;
use vstd::view::View as _;
use crate::strings::{concat_str, decimal, repeat_char, repeat_str, u64_to_decimal};

verus! {

/// Gregorian leap years.
pub open spec fn spec_is_leap_year(y: int) -> bool {
    (y % 4 == 0 && y % 100 != 0) || y % 400 == 0
}

/// Whether a year is a leap year.
pub fn is_leap_year(year: i64) -> (r: bool)
    ensures
        r == spec_is_leap_year(year as int),
{
    let a: u64 = if year < 0 { (-(year as i128)) as u64 } else { year as u64 };
    proof {
        assert(year % 4 == 0 <==> a % 4 == 0) by {
            if year < 0 {
                assert(year == -(a as int));
                assert((-(a as int)) % 4 == 0 <==> (a as int) % 4 == 0) by (nonlinear_arith);
            }
        }
        assert(year % 100 == 0 <==> a % 100 == 0) by {
            if year < 0 {
                assert(year == -(a as int));
                assert((-(a as int)) % 100 == 0 <==> (a as int) % 100 == 0) by (nonlinear_arith);
            }
        }
        assert(year % 400 == 0 <==> a % 400 == 0) by {
            if year < 0 {
                assert(year == -(a as int));
                assert((-(a as int)) % 400 == 0 <==> (a as int) % 400 == 0) by (nonlinear_arith);
            }
        }
    }
    (a % 4 == 0 && a % 100 != 0) || a % 400 == 0
}

pub open spec fn year_len(y: int) -> int {
    if spec_is_leap_year(y) { 366 } else { 365 }
}

/// The year that day number `days` (counted from the first day of `y`)
/// falls in, and the day's number within that year.
pub open spec fn year_split(days: int, y: int) -> (int, int)
    decreases days,
{
    if days < year_len(y) {
        (y, days)
    } else {
        year_split(days - year_len(y), y + 1)
    }
}

pub open spec fn month_len(m: int, leap: bool) -> int {
    if m == 1 {
        if leap { 29 } else { 28 }
    } else if m == 3 || m == 5 || m == 8 || m == 10 {
        30
    } else {
        31
    }
}

/// The month (1 to 12) that day number `days` of a year falls in, counting
/// months from index `m`, and the day's number within that month; a day past
/// the last month stays in December.
pub open spec fn month_split(days: int, m: int, leap: bool) -> (int, int)
    decreases 12 - m,
{
    if m >= 12 {
        (12, days)
    } else if days < month_len(m, leap) {
        (m + 1, days)
    } else {
        month_split(days - month_len(m, leap), m + 1, leap)
    }
}

/// `m` with the sign of a negative time when `neg` holds.
pub open spec fn signed(neg: bool, m: int) -> int {
    if neg { -m } else { m }
}

/// Decimal digits of `s` padded on the left with zeros to `w` characters.
pub open spec fn zfill(s: Seq<char>, w: int) -> Seq<char> {
    if s.len() >= w {
        s
    } else {
        repeat_char('0', (w - s.len()) as nat) + s
    }
}

/// An integer written with at least `w` characters, zeros after the sign
/// (what the `{:0w}` format yields).
pub open spec fn zpad(n: int, w: int) -> Seq<char> {
    if n < 0 {
        "-"@ + zfill(decimal((-n) as nat), w - 1)
    } else {
        zfill(decimal(n as nat), w)
    }
}

/// The calendar fields of a Unix time in seconds: year, month, day, hour,
/// minute, second. Whole days and the time of day are taken towards zero,
/// so a negative time gives negative clock fields.
pub open spec fn civil_fields(secs: int) -> (int, int, int, int, int, int) {
    let neg = secs < 0;
    let mag = if neg { -secs } else { secs };
    let days = signed(neg, mag / 86400);
    let tod = mag % 86400;
    let (year, rem) = year_split(days, 1970);
    let (month, rem2) = month_split(rem, 0, spec_is_leap_year(year));
    (year, month, rem2 + 1, signed(neg, tod / 3600), signed(neg, (tod % 3600) / 60), signed(neg, tod % 60))
}

/// "YYYY-MM-DD HH:MM:SS UTC" for a Unix time in seconds.
pub open spec fn spec_format_utc(secs: int) -> Seq<char> {
    let (y, mo, d, h, mi, s) = civil_fields(secs);
    zpad(y, 4) + "-"@ + zpad(mo, 2) + "-"@ + zpad(d, 2) + " "@ + zpad(h, 2) + ":"@ + zpad(mi, 2) + ":"@
        + zpad(s, 2) + " UTC"@
}

/// An integer written with at least `width` characters, zeros after the
/// sign.
pub fn zero_pad(n: i64, width: usize) -> (r: String)
    requires
        width >= 1,
    ensures
        r@ == zpad(n as int, width as int),
{
    let neg = n < 0;
    let mag: u64 = if neg { (-(n as i128)) as u64 } else { n as u64 };
    let digits = u64_to_decimal(mag);
    let dl = crate::strings::chars_of(digits.as_str()).len();
    let w = if neg { width - 1 } else { width };
    let body = if dl >= w {
        digits
    } else {
        let mut z = repeat_str('0', w - dl);
        z.append(digits.as_str());
        z
    };
    if neg {
        concat_str("-", body.as_str())
    } else {
        body
    }
}

fn month_days(m: usize, leap: bool) -> (d: i64)
    requires
        m < 12,
    ensures
        d == month_len(m as int, leap),
{
    if m == 1 {
        if leap { 29 } else { 28 }
    } else if m == 3 || m == 5 || m == 8 || m == 10 {
        30
    } else {
        31
    }
}

/// Format a Unix timestamp as a human-readable UTC datetime string.
pub fn chrono_format_timestamp(secs: i64) -> (r: String)
    ensures
        r@ == spec_format_utc(secs as int),
{
    let neg = secs < 0;
    let mag: u64 = if neg { (-(secs as i128)) as u64 } else { secs as u64 };
    let dmag = mag / 86400;
    let tod = mag % 86400;
    let days: i64 = if neg { -(dmag as i64) } else { dmag as i64 };
    assert(mag <= 9223372036854775808u64);
    assert(dmag <= 106751991167300u64);
    let mut year: i64 = 1970;
    let mut rem: i64 = days;
    loop
        invariant
            year_split(days as int, 1970) == year_split(rem as int, year as int),
            1970 <= year,
            rem <= days,
            (year - 1970) * 365 <= days - rem,
            -106751991167300 <= days <= 106751991167300,
            -106751991167300 <= rem,
        ensures
            year_split(days as int, 1970) == (year as int, rem as int),
            rem <= days,
            -106751991167300 <= rem,
            -106751991167300 <= days <= 106751991167300,
        decreases rem,
    {
        let yl: i64 = if is_leap_year(year) { 366 } else { 365 };
        if rem < yl {
            break;
        }
        rem = rem - yl;
        year = year + 1;
    }
    assert(year_split(days as int, 1970) == (year as int, rem as int));
    let leap = is_leap_year(year);
    let ghost rem0 = rem as int;
    let mut month: usize = 0;
    let mut i: usize = 0;
    let mut found = false;
    while i < 12 && !found
        invariant
            0 <= i <= 12,
            found ==> 1 <= month <= 12 && month_split(rem0, 0, leap) == (month as int, rem as int),
            !found ==> month_split(rem0, 0, leap) == month_split(rem as int, i as int, leap),
            -106751991167300 <= rem0 <= 106751991167300,
            rem0 - 400 <= rem <= rem0,
            !found ==> (rem0 - rem) <= 31 * i,
        decreases 12 - i + (if found { 0int } else { 1int }),
    {
        let dm = month_days(i, leap);
        if rem < dm {
            month = i + 1;
            found = true;
        } else {
            rem = rem - dm;
            i = i + 1;
        }
    }
    if !found {
        month = 12;
    }
    let day = rem + 1;
    let hours = if neg { -((tod / 3600) as i64) } else { (tod / 3600) as i64 };
    let minutes = if neg { -(((tod % 3600) / 60) as i64) } else { ((tod % 3600) / 60) as i64 };
    let seconds = if neg { -((tod % 60) as i64) } else { (tod % 60) as i64 };
    let mut out = zero_pad(year, 4);
    out.append("-");
    out.append(zero_pad(month as i64, 2).as_str());
    out.append("-");
    out.append(zero_pad(day, 2).as_str());
    out.append(" ");
    out.append(zero_pad(hours, 2).as_str());
    out.append(":");
    out.append(zero_pad(minutes, 2).as_str());
    out.append(":");
    out.append(zero_pad(seconds, 2).as_str());
    out.append(" UTC");
    out
}

/// Number of days of the months from index `m` to December.
pub open spec fn days_from_month(m: int, leap: bool) -> int
    decreases 12 - m,
{
    if m >= 12 {
        0
    } else {
        month_len(m, leap) + days_from_month(m + 1, leap)
    }
}

proof fn lemma_month_split(d: int, m: int, leap: bool)
    requires
        0 <= m <= 12,
        0 <= d < days_from_month(m, leap),
    ensures
        m + 1 <= month_split(d, m, leap).0 <= 12,
        0 <= month_split(d, m, leap).1 < month_len(month_split(d, m, leap).0 - 1, leap),
    decreases 12 - m,
{
    if m < 12 && d >= month_len(m, leap) {
        lemma_month_split(d - month_len(m, leap), m + 1, leap);
    }
}

proof fn lemma_year_split(days: int, y: int)
    requires
        days >= 0,
    ensures
        year_split(days, y).0 >= y,
        0 <= year_split(days, y).1 < year_len(year_split(days, y).0),
    decreases days,
{
    if days >= year_len(y) {
        lemma_year_split(days - year_len(y), y + 1);
    }
}

/// For a time not before the epoch, the calendar fields are in range: a
/// year from 1970, a month from 1 to 12, a day within its month, an hour
/// below 24 and a minute and a second below 60.
pub proof fn lemma_civil_fields_in_range(secs: int)
    requires
        secs >= 0,
    ensures
        ({
            let (y, mo, d, h, mi, s) = civil_fields(secs);
            &&& y >= 1970
            &&& 1 <= mo <= 12
            &&& 1 <= d <= month_len(mo - 1, spec_is_leap_year(y))
            &&& 0 <= h < 24
            &&& 0 <= mi < 60
            &&& 0 <= s < 60
        }),
{
    let days = secs / 86400;
    lemma_year_split(days, 1970);
    let (y, rem) = year_split(days, 1970);
    let leap = spec_is_leap_year(y);
    reveal_with_fuel(days_from_month, 13);
    assert(days_from_month(0, leap) == year_len(y));
    lemma_month_split(rem, 0, leap);
}

/// Leap years before year `y` counted from year 1 by the Gregorian rule:
/// every fourth year, less every hundredth, plus every four-hundredth.
pub open spec fn leap_years_before(y: int) -> int {
    (y - 1) / 4 - (y - 1) / 100 + (y - 1) / 400
}

/// Days from 1 January 1970 to 1 January of year `y`: 365 a year plus one
/// for each leap year in between.
pub open spec fn days_to_year(y: int) -> int {
    365 * (y - 1970) + leap_years_before(y) - leap_years_before(1970)
}

/// Days from 1 January to the first day of month `m` (0 for January, 12 for
/// the end of the year): 31 for January, 28 or 29 for February, and from
/// March on the rule that five months from March take 153 days
/// (31, 30, 31, 30, 31), spread as `(153 * k + 2) / 5` days before the
/// `k`-th month after March.
pub open spec fn days_to_month(m: int, leap: bool) -> int {
    if m <= 0 {
        0
    } else if m == 1 {
        31
    } else {
        59 + (if leap { 1int } else { 0 }) + (153 * (m - 2) + 2) / 5
    }
}

/// The month lengths are those of the Gregorian calendar: each month runs
/// from the first day of its month to the first day of the next, and the
/// twelve months make up the year.
pub proof fn lemma_month_lengths(m: int, leap: bool)
    requires
        0 <= m < 12,
    ensures
        month_len(m, leap) == days_to_month(m + 1, leap) - days_to_month(m, leap),
        days_to_month(12, leap) == if leap { 366int } else { 365 },
{
}

proof fn lemma_div_step(y: int, k: int)
    requires
        y >= 1,
        k >= 1,
    ensures
        y / k - (y - 1) / k == if y % k == 0 { 1int } else { 0 },
{
    assert(y == k * (y / k) + y % k) by (nonlinear_arith)
        requires
            k >= 1,
    ;
    assert((y - 1) == k * ((y - 1) / k) + (y - 1) % k) by (nonlinear_arith)
        requires
            k >= 1,
    ;
    assert(0 <= y % k < k && 0 <= (y - 1) % k < k) by (nonlinear_arith)
        requires
            k >= 1,
    ;
    if y % k == 0 {
        assert((y - 1) / k == y / k - 1) by (nonlinear_arith)
            requires
                k >= 1,
                y == k * (y / k),
                (y - 1) == k * ((y - 1) / k) + (y - 1) % k,
                0 <= (y - 1) % k < k,
        ;
    } else {
        assert((y - 1) / k == y / k) by (nonlinear_arith)
            requires
                k >= 1,
                y == k * (y / k) + y % k,
                1 <= y % k < k,
                (y - 1) == k * ((y - 1) / k) + (y - 1) % k,
                0 <= (y - 1) % k < k,
        ;
    }
}

/// The leap-year rule agrees with the count of leap years: a year adds one
/// more day than 365 exactly when it is a leap year.
pub proof fn lemma_year_lengths(y: int)
    requires
        y >= 1970,
    ensures
        year_len(y) == days_to_year(y + 1) - days_to_year(y),
{
    lemma_div_step(y, 4);
    lemma_div_step(y, 100);
    lemma_div_step(y, 400);
    let a = y / 4 - (y - 1) / 4;
    let b = y / 100 - (y - 1) / 100;
    let c = y / 400 - (y - 1) / 400;
    assert(y % 400 == 0 ==> y % 100 == 0) by (nonlinear_arith)
        requires
            y >= 1,
    ;
    assert(y % 100 == 0 ==> y % 4 == 0) by (nonlinear_arith)
        requires
            y >= 1,
    ;
    assert(leap_years_before(y + 1) - leap_years_before(y) == a - b + c);
    assert(a - b + c == if spec_is_leap_year(y) { 1int } else { 0 });
}

proof fn lemma_year_split_days(days: int, y0: int)
    requires
        days >= 0,
        y0 >= 1970,
    ensures
        days + days_to_year(y0) == days_to_year(year_split(days, y0).0) + year_split(days, y0).1,
    decreases days,
{
    if days >= year_len(y0) {
        lemma_year_lengths(y0);
        lemma_year_split_days(days - year_len(y0), y0 + 1);
    }
}

proof fn lemma_month_split_days(d: int, m: int, leap: bool)
    requires
        0 <= m <= 12,
        0 <= d < days_from_month(m, leap),
    ensures
        d + days_to_month(m, leap) == days_to_month(month_split(d, m, leap).0 - 1, leap) + month_split(d, m, leap).1,
    decreases 12 - m,
{
    if m < 12 {
        lemma_month_lengths(m, leap);
        if d >= month_len(m, leap) {
            lemma_month_split_days(d - month_len(m, leap), m + 1, leap);
        }
    }
}

/// The calendar date of a time not before the epoch is its Gregorian date:
/// the days to the first of its year, the days to the first of its month
/// within that year, its day of the month and its time of day add up to the
/// time. With the fields' ranges (`lemma_civil_fields_in_range`) this fixes
/// every field.
pub proof fn lemma_civil_date(secs: int)
    requires
        secs >= 0,
    ensures
        ({
            let (y, mo, d, h, mi, s) = civil_fields(secs);
            secs == (days_to_year(y) + days_to_month(mo - 1, spec_is_leap_year(y)) + d - 1) * 86400 + h * 3600
                + mi * 60 + s
        }),
{
    let days = secs / 86400;
    let tod = secs % 86400;
    lemma_year_split(days, 1970);
    lemma_year_split_days(days, 1970);
    let (y, rem) = year_split(days, 1970);
    let leap = spec_is_leap_year(y);
    reveal_with_fuel(days_from_month, 13);
    assert(days_from_month(0, leap) == year_len(y));
    lemma_month_split_days(rem, 0, leap);
    assert(secs == days * 86400 + tod);
    assert(tod == (tod / 3600) * 3600 + ((tod % 3600) / 60) * 60 + tod % 60);
}

} // verus!

verus! {

use crate::patterns::{Pattern, compile_pattern, regex_compiles, regex_replace_all, replace_all};
use crate::strings::{byte_len, chars_of, prefix_bytes_str, str_byte_len, str_eq, string_from_chars, take_chars, prefix_chars};
use crate::data::{ConversationTurn, LogEntry};
use crate::json::{Json, as_str, entry_index, entry_models, lemma_entry_models, model};
use crate::ui::tools::prefix_bytes;
use vstd::utf8::{encode_utf8, is_char_boundary};

/// Runs of six or more hexadecimal digits, taken for identifiers.
pub open spec fn hex_id_source() -> Seq<char> {
    "[0-9a-fA-F]{6,}"@
}

/// Whole numbers, with an optional fraction.
pub open spec fn number_source() -> Seq<char> {
    "\\b\\d+(\\.\\d+)?\\b"@
}

/// The two patterns that normalise warning messages, compiled; `None` where
/// the `regex` crate refuses either of them.
pub fn warning_patterns() -> (r: Option<(Pattern, Pattern)>)
    ensures
        r is Some <==> regex_compiles(hex_id_source()) && regex_compiles(number_source()),
        r matches Some((h, n)) ==> h.source() == hex_id_source() && n.source() == number_source(),
{
    let h = compile_pattern("[0-9a-fA-F]{6,}");
    let n = compile_pattern("\\b\\d+(\\.\\d+)?\\b");
    match (h, n) {
        (Some(h), Some(n)) => Some((h, n)),
        _ => None,
    }
}

/// The key under which a warning is grouped: its logger, "::", and the
/// first 80 characters of its message with identifiers replaced by "<ID>"
/// and then numbers by "<N>".
pub open spec fn spec_warning_key(logger: Seq<char>, message: Seq<char>) -> Seq<char> {
    logger + "::"@ + regex_replace_all(
        number_source(),
        regex_replace_all(hex_id_source(), take_chars(message, 80), "<ID>"@),
        "<N>"@,
    )
}

/// The key under which a warning is grouped.
pub fn warning_group_key(hex: &Pattern, num: &Pattern, logger: &str, message: &str) -> (k: String)
    requires
        hex.source() == hex_id_source(),
        num.source() == number_source(),
    ensures
        k@ == spec_warning_key(logger@, message@),
{
    let short = prefix_chars(message, 80);
    let a = replace_all(hex, short.as_str(), "<ID>");
    let b = replace_all(num, a.as_str(), "<N>");
    let mut k = concat_str(logger, "::");
    k.append(b.as_str());
    k
}

/// `s` with every line feed replaced by " | ".
pub open spec fn join_lines(s: Seq<char>) -> Seq<char>
    decreases s.len(),
{
    if s.len() == 0 {
        Seq::empty()
    } else {
        join_lines(s.drop_last()) + if s.last() == '\n' { " | "@ } else { seq![s.last()] }
    }
}

/// The label of a warning group: its first message on one line, cut to 77
/// bytes followed by "..." when longer than 80 bytes.
pub open spec fn group_label(message: Seq<char>) -> Seq<char> {
    let full = join_lines(message);
    if byte_len(full) > 80 {
        prefix_bytes(full, 77) + "..."@
    } else {
        full
    }
}

/// The label of a message can be cut on a character boundary.
pub open spec fn label_ok(message: Seq<char>) -> bool {
    byte_len(join_lines(message)) > 80 ==> is_char_boundary(encode_utf8(join_lines(message)), 77)
}

fn one_line(message: &str) -> (r: String)
    ensures
        r@ == join_lines(message@),
{
    let v = chars_of(message);
    let mut r = String::new();
    let mut i: usize = 0;
    while i < v.len()
        invariant
            0 <= i <= v.len(),
            v@ == message@,
            r@ == join_lines(v@.take(i as int)),
        decreases v.len() - i,
    {
        assert(v@.take(i + 1).drop_last() =~= v@.take(i as int));
        if v[i] == '\n' {
            r.append(" | ");
        } else {
            r.push(v[i]);
            assert(r@ =~= join_lines(v@.take(i as int)) + seq![v@[i as int]]);
        }
        i = i + 1;
    }
    assert(v@.take(i as int) =~= v@);
    r
}

fn label_of(message: &str) -> (r: String)
    requires
        label_ok(message@),
    ensures
        r@ == group_label(message@),
{
    let full = one_line(message);
    if str_byte_len(full.as_str()) > 80 {
        let head = prefix_bytes_str(full.as_str(), 77);
        concat_str(head, "...")
    } else {
        full
    }
}

/// A group of warnings with the same key: its label, its logger, how many
/// warnings it has, and the first and last of their times in nanoseconds.
pub struct WarningGroup {
    pub label: String,
    pub logger: String,
    pub count: usize,
    pub first_ns: i64,
    pub last_ns: i64,
}

/// Mathematical form of a warning group, with its key.
pub struct GroupModel {
    pub key: Seq<char>,
    pub label: Seq<char>,
    pub logger: Seq<char>,
    pub count: nat,
    pub first: int,
    pub last: int,
}

impl WarningGroup {
    pub open spec fn model(self, key: Seq<char>) -> GroupModel {
        GroupModel {
            key,
            label: self.label@,
            logger: self.logger@,
            count: self.count as nat,
            first: self.first_ns as int,
            last: self.last_ns as int,
        }
    }
}

pub open spec fn warning_key_of(w: LogEntry) -> Seq<char> {
    spec_warning_key(w.logger_name@, w.message@)
}

/// First group at or after `i` with key `k`.
pub open spec fn find_group(gs: Seq<GroupModel>, k: Seq<char>, i: int) -> Option<int>
    decreases gs.len() - i,
{
    if i < 0 || i >= gs.len() {
        None
    } else if gs[i].key == k {
        Some(i)
    } else {
        find_group(gs, k, i + 1)
    }
}

pub open spec fn min_int(a: int, b: int) -> int {
    if b < a { b } else { a }
}

pub open spec fn max_int(a: int, b: int) -> int {
    if b > a { b } else { a }
}

/// One warning added to the groups: counted in the group of its key, whose
/// time range it widens, or starting a new group at the end.
pub open spec fn group_step(gs: Seq<GroupModel>, w: LogEntry) -> Seq<GroupModel> {
    let k = warning_key_of(w);
    let t = w.timestamp_ns as int;
    match find_group(gs, k, 0) {
        Some(i) => gs.update(
            i,
            GroupModel {
                key: k,
                label: gs[i].label,
                logger: gs[i].logger,
                count: gs[i].count + 1,
                first: min_int(gs[i].first, t),
                last: max_int(gs[i].last, t),
            },
        ),
        None => gs.push(
            GroupModel {
                key: k,
                label: group_label(w.message@),
                logger: w.logger_name@,
                count: 1,
                first: t,
                last: t,
            },
        ),
    }
}

/// The groups of a list of warnings, in the order their keys first appear.
pub open spec fn group_scan(ws: Seq<LogEntry>) -> Seq<GroupModel>
    decreases ws.len(),
{
    if ws.len() == 0 {
        Seq::empty()
    } else {
        group_step(group_scan(ws.drop_last()), ws.last())
    }
}

/// Position at which a group with `c` warnings goes in a list ordered by
/// count, largest first: after every group with at least as many.
pub open spec fn insert_pos(s: Seq<GroupModel>, c: nat) -> int
    decreases s.len(),
{
    if s.len() == 0 {
        0
    } else if s[0].count >= c {
        1 + insert_pos(s.drop_first(), c)
    } else {
        0
    }
}

/// The groups ordered by count, largest first; groups with equal counts
/// keep their order (a stable sort).
pub open spec fn sort_by_count(s: Seq<GroupModel>) -> Seq<GroupModel>
    decreases s.len(),
{
    if s.len() == 0 {
        Seq::empty()
    } else {
        let sorted = sort_by_count(s.drop_last());
        sorted.insert(insert_pos(sorted, s.last().count), s.last())
    }
}

/// The warnings whose group they start have labels that can be cut.
pub open spec fn labels_ok(ws: Seq<LogEntry>) -> bool {
    forall|i: int|
        0 <= i < ws.len() && (forall|j: int| 0 <= j < i ==> warning_key_of(#[trigger] ws[j]) != warning_key_of(ws[i]))
            ==> label_ok(#[trigger] ws[i].message@)
}

pub open spec fn groups_model(gs: Seq<WarningGroup>, keys: Seq<String>) -> Seq<GroupModel> {
    Seq::new(gs.len(), |i: int| gs[i].model(keys[i]@))
}

pub open spec fn group_views(gs: Seq<GroupModel>) -> Seq<(Seq<char>, Seq<char>, nat, int, int)> {
    gs.map_values(|g: GroupModel| (g.label, g.logger, g.count, g.first, g.last))
}

pub open spec fn warning_group_views(gs: Seq<WarningGroup>) -> Seq<(Seq<char>, Seq<char>, nat, int, int)> {
    gs.map_values(|g: WarningGroup| (g.label@, g.logger@, g.count as nat, g.first_ns as int, g.last_ns as int))
}

/// The key occurs among the groups.
pub open spec fn has_group(gs: Seq<GroupModel>, k: Seq<char>) -> bool {
    exists|j: int| 0 <= j < gs.len() && gs[j].key == k
}

pub proof fn lemma_find_group(gs: Seq<GroupModel>, k: Seq<char>, i: int)
    requires
        0 <= i,
    ensures
        match find_group(gs, k, i) {
            Some(x) => i <= x < gs.len() && gs[x].key == k && forall|j: int| i <= j < x ==> gs[j].key != k,
            None => forall|j: int| i <= j < gs.len() ==> gs[j].key != k,
        },
    decreases gs.len() - i,
{
    if i < gs.len() && gs[i].key != k {
        lemma_find_group(gs, k, i + 1);
    }
}

fn find_key(keys: &Vec<String>, key: &str, Ghost(gm): Ghost<Seq<GroupModel>>) -> (res: Option<usize>)
    requires
        gm.len() == keys@.len(),
        forall|j: int| 0 <= j < keys@.len() ==> #[trigger] gm[j].key == keys@[j]@,
    ensures
        match res {
            Some(x) => find_group(gm, key@, 0) == Some(x as int),
            None => find_group(gm, key@, 0) is None,
        },
{
    let mut idx: usize = 0;
    while idx < keys.len()
        invariant
            0 <= idx <= keys.len(),
            gm.len() == keys@.len(),
            forall|j: int| 0 <= j < keys@.len() ==> #[trigger] gm[j].key == keys@[j]@,
            find_group(gm, key@, 0) == find_group(gm, key@, idx as int),
        decreases keys.len() - idx,
    {
        assert(gm[idx as int].key == keys@[idx as int]@);
        if str_eq(keys[idx].as_str(), key) {
            return Some(idx);
        }
        idx = idx + 1;
    }
    None
}

fn copy_group(g: &WarningGroup) -> (r: WarningGroup)
    ensures
        r.label@ == g.label@,
        r.logger@ == g.logger@,
        r.count == g.count,
        r.first_ns == g.first_ns,
        r.last_ns == g.last_ns,
{
    WarningGroup {
        label: g.label.clone(),
        logger: g.logger.clone(),
        count: g.count,
        first_ns: g.first_ns,
        last_ns: g.last_ns,
    }
}

/// Group warnings that share a key (same logger and message up to
/// identifiers and numbers), counting them and keeping the first and last
/// times; the groups come ordered by count, largest first, and groups with
/// equal counts in the order their keys first appear.
pub fn group_warnings(hex: &Pattern, num: &Pattern, warnings: &Vec<LogEntry>) -> (groups: Vec<WarningGroup>)
    requires
        hex.source() == hex_id_source(),
        num.source() == number_source(),
        labels_ok(warnings@),
    ensures
        warning_group_views(groups@) == group_views(sort_by_count(group_scan(warnings@))),
{
    let ghost ws = warnings@;
    let mut groups: Vec<WarningGroup> = Vec::new();
    let mut keys: Vec<String> = Vec::new();
    let mut i: usize = 0;
    assert(ws.take(0) =~= Seq::<LogEntry>::empty());
    assert(groups_model(groups@, keys@) =~= Seq::<GroupModel>::empty());
    while i < warnings.len()
        invariant
            0 <= i <= warnings.len(),
            ws == warnings@,
            hex.source() == hex_id_source(),
            num.source() == number_source(),
            labels_ok(ws),
            groups@.len() == keys@.len(),
            groups_model(groups@, keys@) == group_scan(ws.take(i as int)),
            forall|j: int| 0 <= j < i ==> has_group(group_scan(ws.take(i as int)), warning_key_of(#[trigger] ws[j])),
            forall|j: int| 0 <= j < groups@.len() ==> (#[trigger] groups@[j]).count <= i,
        decreases warnings.len() - i,
    {
        let ghost gm = groups_model(groups@, keys@);
        let w = &warnings[i];
        let key = warning_group_key(hex, num, w.logger_name.as_str(), w.message.as_str());
        assert(key@ == warning_key_of(ws[i as int]));
        assert(ws.take(i + 1).drop_last() =~= ws.take(i as int));
        assert(ws.take(i + 1).last() == ws[i as int]);
        let found = find_key(&keys, key.as_str(), Ghost(gm));
        proof {
            lemma_find_group(gm, key@, 0);
        }
        let ts = w.timestamp_ns;
        match found {
            Some(x) => {
                let g = &groups[x];
                let first = if ts < g.first_ns { ts } else { g.first_ns };
                let last = if ts > g.last_ns { ts } else { g.last_ns };
                let ng = WarningGroup {
                    label: g.label.clone(),
                    logger: g.logger.clone(),
                    count: g.count + 1,
                    first_ns: first,
                    last_ns: last,
                };
                groups.set(x, ng);
                proof {
                    let nm = groups_model(groups@, keys@);
                    assert(nm =~= group_step(gm, ws[i as int]));
                    assert forall|j: int| 0 <= j <= i implies has_group(nm, warning_key_of(#[trigger] ws[j])) by {
                        if j < i {
                            let y = choose|y: int| 0 <= y < gm.len() && gm[y].key == warning_key_of(ws[j]);
                            assert(nm[y].key == gm[y].key);
                        } else {
                            assert(nm[x as int].key == key@);
                        }
                    }
                }
            },
            None => {
                proof {
                    assert forall|j: int| 0 <= j < i implies warning_key_of(#[trigger] ws[j]) != warning_key_of(ws[i as int]) by {
                        assert(has_group(gm, warning_key_of(ws[j])));
                    }
                    assert(label_ok(ws[i as int].message@));
                }
                let label = label_of(w.message.as_str());
                let ng = WarningGroup {
                    label,
                    logger: w.logger_name.clone(),
                    count: 1,
                    first_ns: ts,
                    last_ns: ts,
                };
                groups.push(ng);
                keys.push(key);
                proof {
                    let nm = groups_model(groups@, keys@);
                    assert(nm =~= group_step(gm, ws[i as int]));
                    assert forall|j: int| 0 <= j <= i implies has_group(nm, warning_key_of(#[trigger] ws[j])) by {
                        if j < i {
                            let y = choose|y: int| 0 <= y < gm.len() && gm[y].key == warning_key_of(ws[j]);
                            assert(nm[y].key == gm[y].key);
                        } else {
                            assert(nm[gm.len() as int].key == key@);
                        }
                    }
                }
            },
        }
        i = i + 1;
    }
    assert(ws.take(i as int) =~= ws);
    let ghost gm = groups_model(groups@, keys@);
    let mut sorted: Vec<WarningGroup> = Vec::new();
    let ghost mut sm: Seq<GroupModel> = Seq::empty();
    let mut k: usize = 0;
    assert(gm.take(0) =~= Seq::<GroupModel>::empty());
    assert(warning_group_views(sorted@) =~= group_views(sm));
    while k < groups.len()
        invariant
            0 <= k <= groups@.len(),
            gm == groups_model(groups@, keys@),
            groups@.len() == keys@.len(),
            sm == sort_by_count(gm.take(k as int)),
            warning_group_views(sorted@) == group_views(sm),
            sm.len() == sorted@.len(),
            forall|q: int| 0 <= q < sm.len() ==> (#[trigger] sm[q]).count == sorted@[q].count,
        decreases groups@.len() - k,
    {
        let g = copy_group(&groups[k]);
        let c = g.count;
        assert(gm.take(k + 1).drop_last() =~= gm.take(k as int));
        assert(gm.take(k + 1).last() == gm[k as int]);
        let mut p: usize = 0;
        assert(sm.skip(0) =~= sm);
        while p < sorted.len() && sorted[p].count >= c
            invariant
                0 <= p <= sorted@.len(),
                sm.len() == sorted@.len(),
                forall|q: int| 0 <= q < sm.len() ==> (#[trigger] sm[q]).count == sorted@[q].count,
                insert_pos(sm, c as nat) == p + insert_pos(sm.skip(p as int), c as nat),
            decreases sorted@.len() - p,
        {
            assert(sm[p as int].count == sorted@[p as int].count);
            assert(sm.skip(p as int)[0] == sm[p as int]);
            assert(sm.skip(p as int).drop_first() =~= sm.skip(p + 1));
            p = p + 1;
        }
        proof {
            if p < sorted@.len() {
                assert(sm[p as int].count == sorted@[p as int].count);
                assert(sm.skip(p as int)[0] == sm[p as int]);
            }
            assert(insert_pos(sm.skip(p as int), c as nat) == 0);
        }
        let ghost old_sorted = sorted@;
        let ghost old_sm = sm;
        let ghost item = gm[k as int];
        let ghost gv = (g.label@, g.logger@, g.count as nat, g.first_ns as int, g.last_ns as int);
        assert(item == groups@[k as int].model(keys@[k as int]@));
        assert(gv == (item.label, item.logger, item.count, item.first, item.last));
        sorted.insert(p, g);
        proof {
            sm = old_sm.insert(p as int, item);
            assert(sorted@.len() == sm.len());
            assert forall|q: int| 0 <= q < sorted@.len() implies warning_group_views(sorted@)[q] == group_views(sm)[q] by {
                if q < p {
                    assert(sorted@[q] == old_sorted[q]);
                    assert(sm[q] == old_sm[q]);
                    assert(warning_group_views(old_sorted)[q] == group_views(old_sm)[q]);
                } else if q > p {
                    assert(sorted@[q] == old_sorted[q - 1]);
                    assert(sm[q] == old_sm[q - 1]);
                    assert(warning_group_views(old_sorted)[q - 1] == group_views(old_sm)[q - 1]);
                } else {
                    assert(sm[q] == item);
                    assert(warning_group_views(sorted@)[q] == gv);
                }
            }
            assert(warning_group_views(sorted@) =~= group_views(sm));
            assert forall|q: int| 0 <= q < sm.len() implies (#[trigger] sm[q]).count == sorted@[q].count by {
                if q < p {
                    assert(sorted@[q] == old_sorted[q]);
                    assert(sm[q] == old_sm[q]);
                } else if q > p {
                    assert(sorted@[q] == old_sorted[q - 1]);
                    assert(sm[q] == old_sm[q - 1]);
                } else {
                    assert(sm[q] == item);
                }
            }
        }
        k = k + 1;
    }
    assert(gm.take(k as int) =~= gm);
    sorted
}

fn label_cut_ok(message: &str) -> (r: bool)
    ensures
        r == label_ok(message@),
{
    let full = one_line(message);
    str_byte_len(full.as_str()) <= 80 || full.as_str().is_char_boundary(77)
}

/// Group warnings as `group_warnings` does, when the label of every group
/// can be cut on a character boundary; `None` otherwise.
pub fn group_warnings_checked(hex: &Pattern, num: &Pattern, warnings: &Vec<LogEntry>) -> (r: Option<Vec<WarningGroup>>)
    requires
        hex.source() == hex_id_source(),
        num.source() == number_source(),
    ensures
        r is Some <==> labels_ok(warnings@),
        r matches Some(groups) ==> warning_group_views(groups@) == group_views(sort_by_count(group_scan(warnings@))),
{
    let ghost ws = warnings@;
    let mut keys: Vec<String> = Vec::new();
    let mut i: usize = 0;
    while i < warnings.len()
        invariant
            0 <= i <= warnings.len(),
            ws == warnings@,
            hex.source() == hex_id_source(),
            num.source() == number_source(),
            keys@.len() == i,
            forall|j: int| 0 <= j < i ==> (#[trigger] keys@[j])@ == warning_key_of(ws[j]),
            forall|a: int|
                0 <= a < i && (forall|j: int| 0 <= j < a ==> warning_key_of(#[trigger] ws[j]) != warning_key_of(ws[a]))
                    ==> label_ok(#[trigger] ws[a].message@),
        decreases warnings.len() - i,
    {
        let w = &warnings[i];
        let key = warning_group_key(hex, num, w.logger_name.as_str(), w.message.as_str());
        let mut fresh = true;
        let mut j: usize = 0;
        while j < i
            invariant
                0 <= j <= i,
                keys@.len() == i,
                i < ws.len(),
                key@ == warning_key_of(ws[i as int]),
                forall|q: int| 0 <= q < i ==> (#[trigger] keys@[q])@ == warning_key_of(ws[q]),
                fresh <==> forall|q: int| 0 <= q < j ==> warning_key_of(#[trigger] ws[q]) != warning_key_of(ws[i as int]),
            decreases i - j,
        {
            assert(keys@[j as int]@ == warning_key_of(ws[j as int]));
            if str_eq(keys[j].as_str(), key.as_str()) {
                fresh = false;
            }
            j = j + 1;
        }
        if fresh && !label_cut_ok(w.message.as_str()) {
            return None;
        }
        keys.push(key);
        i = i + 1;
    }
    Some(group_warnings(hex, num, warnings))
}

/// The groups are ordered by count, largest first.
pub open spec fn groups_sorted(s: Seq<GroupModel>) -> bool {
    forall|i: int, j: int| 0 <= i < j < s.len() ==> s[i].count >= s[j].count
}

proof fn lemma_insert_pos(s: Seq<GroupModel>, c: nat)
    requires
        groups_sorted(s),
    ensures
        0 <= insert_pos(s, c) <= s.len(),
        forall|i: int| 0 <= i < insert_pos(s, c) ==> s[i].count >= c,
        forall|i: int| insert_pos(s, c) <= i < s.len() ==> s[i].count < c,
    decreases s.len(),
{
    if s.len() > 0 {
        if s[0].count >= c {
            let r = s.drop_first();
            assert(groups_sorted(r)) by {
                assert forall|i: int, j: int| 0 <= i < j < r.len() implies r[i].count >= r[j].count by {
                    assert(r[i] == s[i + 1] && r[j] == s[j + 1]);
                }
            }
            lemma_insert_pos(r, c);
            assert forall|i: int| 0 <= i < insert_pos(s, c) implies s[i].count >= c by {
                if i > 0 {
                    assert(s[i] == r[i - 1]);
                }
            }
            assert forall|i: int| insert_pos(s, c) <= i < s.len() implies s[i].count < c by {
                assert(s[i] == r[i - 1]);
            }
        } else {
            assert forall|i: int| 0 <= i < s.len() implies s[i].count < c by {
                if i > 0 {
                    assert(s[0].count >= s[i].count);
                }
            }
        }
    }
}

/// Total number of warnings in the groups.
pub open spec fn total_count(gs: Seq<GroupModel>) -> nat
    decreases gs.len(),
{
    if gs.len() == 0 {
        0
    } else {
        total_count(gs.drop_last()) + gs.last().count
    }
}

proof fn lemma_total_count_update(gs: Seq<GroupModel>, i: int, g: GroupModel)
    requires
        0 <= i < gs.len(),
    ensures
        total_count(gs.update(i, g)) + gs[i].count == total_count(gs) + g.count,
    decreases gs.len(),
{
    if i < gs.len() - 1 {
        lemma_total_count_update(gs.drop_last(), i, g);
        assert(gs.update(i, g).drop_last() =~= gs.drop_last().update(i, g));
    } else {
        assert(gs.update(i, g).drop_last() =~= gs.drop_last());
    }
}

proof fn lemma_total_count_insert(gs: Seq<GroupModel>, i: int, g: GroupModel)
    requires
        0 <= i <= gs.len(),
    ensures
        total_count(gs.insert(i, g)) == total_count(gs) + g.count,
    decreases gs.len(),
{
    if i < gs.len() {
        lemma_total_count_insert(gs.drop_last(), i, g);
        assert(gs.insert(i, g).drop_last() =~= gs.drop_last().insert(i, g));
    } else {
        assert(gs.insert(i, g).drop_last() =~= gs);
    }
}

/// Sorting the groups orders them by count, largest first, keeps the same
/// groups, and keeps the total number of warnings.
pub proof fn lemma_sort_by_count(s: Seq<GroupModel>)
    ensures
        groups_sorted(sort_by_count(s)),
        sort_by_count(s).to_multiset() == s.to_multiset(),
        total_count(sort_by_count(s)) == total_count(s),
    decreases s.len(),
{
    broadcast use vstd::seq_lib::to_multiset_insert, vstd::seq_lib::to_multiset_build;

    if s.len() == 0 {
        assert(sort_by_count(s) =~= s);
    } else {
        let x = s.last();
        lemma_sort_by_count(s.drop_last());
        let sorted = sort_by_count(s.drop_last());
        let p = insert_pos(sorted, x.count);
        lemma_insert_pos(sorted, x.count);
        lemma_total_count_insert(sorted, p, x);
        let r = sorted.insert(p, x);
        assert(r == sort_by_count(s));
        assert forall|i: int, j: int| 0 <= i < j < r.len() implies r[i].count >= r[j].count by {
            if j < p {
                assert(r[i] == sorted[i] && r[j] == sorted[j]);
            } else if j == p {
                assert(r[i] == sorted[i]);
            } else if i < p {
                assert(r[i] == sorted[i] && r[j] == sorted[j - 1]);
            } else if i == p {
                assert(r[j] == sorted[j - 1]);
            } else {
                assert(r[i] == sorted[i - 1] && r[j] == sorted[j - 1]);
            }
        }
        assert(s =~= s.drop_last().push(x));
    }
}

/// Every warning is counted in exactly one group, and each group's first
/// time is not after its last.
pub proof fn lemma_group_scan(ws: Seq<LogEntry>)
    ensures
        total_count(group_scan(ws)) == ws.len(),
        forall|i: int| 0 <= i < group_scan(ws).len() ==> (#[trigger] group_scan(ws)[i]).first <= group_scan(ws)[i].last,
    decreases ws.len(),
{
    if ws.len() > 0 {
        lemma_group_scan(ws.drop_last());
        let gs = group_scan(ws.drop_last());
        let w = ws.last();
        let k = warning_key_of(w);
        lemma_find_group(gs, k, 0);
        match find_group(gs, k, 0) {
            Some(i) => {
                let t = w.timestamp_ns as int;
                let g = GroupModel {
                    key: k,
                    label: gs[i].label,
                    logger: gs[i].logger,
                    count: gs[i].count + 1,
                    first: min_int(gs[i].first, t),
                    last: max_int(gs[i].last, t),
                };
                lemma_total_count_update(gs, i, g);
                assert(group_scan(ws) == gs.update(i, g));
            },
            None => {
                assert(group_scan(ws).drop_last() =~= gs);
            },
        }
    }
}

/// The groups of a list of warnings come ordered by count, largest first;
/// their counts add up to the number of warnings; and each group's first
/// time is not after its last.
pub proof fn lemma_grouped_warnings(ws: Seq<LogEntry>)
    ensures
        groups_sorted(sort_by_count(group_scan(ws))),
        total_count(sort_by_count(group_scan(ws))) == ws.len(),
        forall|i: int|
            0 <= i < sort_by_count(group_scan(ws)).len() ==> (#[trigger] sort_by_count(group_scan(ws))[i]).first
                <= sort_by_count(group_scan(ws))[i].last,
{
    broadcast use vstd::seq_lib::to_multiset_contains;

    lemma_group_scan(ws);
    lemma_sort_by_count(group_scan(ws));
    let gs = group_scan(ws);
    let sorted = sort_by_count(gs);
    assert forall|i: int| 0 <= i < sorted.len() implies (#[trigger] sorted[i]).first <= sorted[i].last by {
        assert(sorted.contains(sorted[i]));
        assert(sorted.to_multiset().count(sorted[i]) > 0);
        assert(gs.to_multiset().count(sorted[i]) > 0);
        assert(gs.contains(sorted[i]));
        let j = choose|j: int| 0 <= j < gs.len() && gs[j] == sorted[i];
        assert(gs[j].first <= gs[j].last);
    }
}

/// Where the time of one turn went, in whole milliseconds, with the tools
/// it called.
pub struct TurnBreakdown {
    pub first_llm_ms: Option<u64>,
    pub tool_ms: Option<u64>,
    pub llm_ms: Option<u64>,
    pub tts_ms: Option<u64>,
    pub overhead_ms: Option<u64>,
    pub tool_names: Vec<String>,
}

pub open spec fn or_zero(o: Option<u64>) -> int {
    match o {
        Some(v) => v as int,
        None => 0,
    }
}

/// The largest part of a breakdown, by position in the order overhead,
/// first language-model call, tool, language model, speech synthesis; of
/// equal largest parts the later one.
pub open spec fn largest_part(parts: Seq<int>) -> int
    decreases parts.len(),
{
    if parts.len() <= 1 {
        0
    } else {
        let k = largest_part(parts.drop_last());
        if parts.last() >= parts[k] { parts.len() - 1 } else { k }
    }
}

pub open spec fn breakdown_parts(bd: TurnBreakdown) -> Seq<int> {
    seq![or_zero(bd.overhead_ms), or_zero(bd.first_llm_ms), or_zero(bd.tool_ms), or_zero(bd.llm_ms), or_zero(bd.tts_ms)]
}

/// The names joined with ", ".
pub open spec fn join_comma(names: Seq<Seq<char>>) -> Seq<char>
    decreases names.len(),
{
    if names.len() == 0 {
        Seq::empty()
    } else if names.len() == 1 {
        names[0]
    } else {
        join_comma(names.drop_last()) + ", "@ + names.last()
    }
}

/// The reason given for a slow turn, after its largest part.
pub open spec fn spec_slow_reason(bd: TurnBreakdown) -> Seq<char> {
    let k = largest_part(breakdown_parts(bd));
    if k == 1 {
        "overhead — llm1="@ + decimal(or_zero(bd.first_llm_ms) as nat) + "ms deciding to call tool"@
    } else if k == 2 {
        let names = if bd.tool_names@.len() == 0 {
            "tool call"@
        } else {
            join_comma(bd.tool_names@.map_values(|n: String| n@))
        };
        "tool call dominated — "@ + names + "="@ + decimal(or_zero(bd.tool_ms) as nat) + "ms"@
    } else if k == 3 {
        "LLM took "@ + decimal(or_zero(bd.llm_ms) as nat) + "ms"@
    } else if k == 4 {
        "TTS took "@ + decimal(or_zero(bd.tts_ms) as nat) + "ms"@
    } else {
        "overhead — "@ + decimal(or_zero(bd.overhead_ms) as nat) + "ms unexplained gap"@
    }
}

fn ms_or_zero(o: Option<u64>) -> (v: u64)
    ensures
        v as int == or_zero(o),
{
    match o {
        Some(v) => v,
        None => 0,
    }
}

/// Determine the human-readable reason for a slow turn from its breakdown.
pub fn determine_slow_reason(bd: &TurnBreakdown) -> (r: String)
    ensures
        r@ == spec_slow_reason(*bd),
{
    let parts: [u64; 5] = [
        ms_or_zero(bd.overhead_ms),
        ms_or_zero(bd.first_llm_ms),
        ms_or_zero(bd.tool_ms),
        ms_or_zero(bd.llm_ms),
        ms_or_zero(bd.tts_ms),
    ];
    let ghost ps = breakdown_parts(*bd);
    let mut k: usize = 0;
    let mut i: usize = 1;
    assert(ps.take(1).len() == 1);
    while i < 5
        invariant
            1 <= i <= 5,
            k < i,
            ps == breakdown_parts(*bd),
            forall|j: int| 0 <= j < 5 ==> #[trigger] parts@[j] as int == ps[j],
            k as int == largest_part(ps.take(i as int)),
        decreases 5 - i,
    {
        assert(ps.take(i + 1).drop_last() =~= ps.take(i as int));
        assert(ps.take(i + 1).last() == ps[i as int]);
        assert(ps.take(i + 1)[k as int] == ps[k as int]);
        if parts[i] >= parts[k] {
            k = i;
        }
        i = i + 1;
    }
    assert(ps.take(5) =~= ps);
    if k == 1 {
        let mut r = String::from_str("overhead — llm1=");
        r.append(u64_to_decimal(parts[1]).as_str());
        r.append("ms deciding to call tool");
        r
    } else if k == 2 {
        let mut names = String::new();
        let ghost nv = bd.tool_names@.map_values(|n: String| n@);
        let mut j: usize = 0;
        assert(nv.take(0) =~= Seq::<Seq<char>>::empty());
        while j < bd.tool_names.len()
            invariant
                0 <= j <= bd.tool_names@.len(),
                nv == bd.tool_names@.map_values(|n: String| n@),
                names@ == join_comma(nv.take(j as int)),
            decreases bd.tool_names@.len() - j,
        {
            assert(nv.take(j + 1).drop_last() =~= nv.take(j as int));
            assert(nv.take(j + 1).last() == bd.tool_names@[j as int]@);
            if j > 0 {
                names.append(", ");
            } else {
                assert(nv.take(1) =~= seq![nv[0]]);
            }
            names.append(bd.tool_names[j].as_str());
            j = j + 1;
        }
        assert(nv.take(j as int) =~= nv);
        let mut r = String::from_str("tool call dominated — ");
        if bd.tool_names.len() == 0 {
            r.append("tool call");
        } else {
            r.append(names.as_str());
        }
        r.append("=");
        r.append(u64_to_decimal(parts[2]).as_str());
        r.append("ms");
        r
    } else if k == 3 {
        let mut r = String::from_str("LLM took ");
        r.append(u64_to_decimal(parts[3]).as_str());
        r.append("ms");
        r
    } else if k == 4 {
        let mut r = String::from_str("TTS took ");
        r.append(u64_to_decimal(parts[4]).as_str());
        r.append("ms");
        r
    } else {
        let mut r = String::from_str("overhead — ");
        r.append(u64_to_decimal(parts[0]).as_str());
        r.append("ms unexplained gap");
        r
    }
}

/// The identifier a report shows for a room: its id, else its name, else
/// the name of the folder the data came from, else "unknown".
pub open spec fn spec_effective_room_id(room_id: Seq<char>, room_name: Seq<char>, folder: Option<Seq<char>>) -> Seq<char> {
    if room_id.len() > 0 {
        room_id
    } else if room_name.len() > 0 {
        room_name
    } else {
        match folder {
            Some(f) => f,
            None => "unknown"@,
        }
    }
}

/// The identifier a report shows for a room.
pub fn effective_room_id(room_id: &str, room_name: &str, folder_name: Option<&str>) -> (r: String)
    ensures
        r@ == spec_effective_room_id(room_id@, room_name@, match folder_name {
            Some(f) => Some(f@),
            None => None,
        }),
{
    if chars_of(room_id).len() > 0 {
        String::from_str(room_id)
    } else if chars_of(room_name).len() > 0 {
        String::from_str(room_name)
    } else {
        match folder_name {
            Some(f) => String::from_str(f),
            None => String::from_str("unknown"),
        }
    }
}

/// The string value of an item's extra field.
pub open spec fn extra_text(t: ConversationTurn, key: Seq<char>) -> Option<Seq<char>> {
    let es = entry_models(t.extra@);
    match entry_index(es, key, 0) {
        Some(i) => as_str(es[i].1),
        None => None,
    }
}

/// An output answers a call: the same call id, or a call without one.
pub open spec fn answers(call_id: Option<Seq<char>>, out_id: Option<Seq<char>>) -> bool {
    call_id == out_id || call_id is None
}

/// The first function-call output at or after `j` that answers a call with
/// id `call_id`.
pub open spec fn first_output(ts: Seq<ConversationTurn>, call_id: Option<Seq<char>>, j: int) -> Option<int>
    decreases ts.len() - j,
{
    if j < 0 || j >= ts.len() {
        None
    } else if ts[j].turn_type@ == "function_call_output"@ && answers(call_id, extra_text(ts[j], "call_id"@)) {
        Some(j)
    } else {
        first_output(ts, call_id, j + 1)
    }
}

/// For each item, the output that answers it when it is a function call.
pub open spec fn spec_call_outputs(ts: Seq<ConversationTurn>) -> Seq<Option<int>> {
    Seq::new(
        ts.len(),
        |i: int|
            if ts[i].turn_type@ == "function_call"@ {
                first_output(ts, extra_text(ts[i], "call_id"@), i + 1)
            } else {
                None
            },
    )
}

pub(crate) fn extra_text_exec<'a>(t: &'a ConversationTurn, key: &str) -> (r: Option<&'a str>)
    ensures
        match r {
            Some(s) => extra_text(*t, key@) == Some(s@),
            None => extra_text(*t, key@) is None,
        },
{
    proof {
        lemma_entry_models(t.extra@);
    }
    let ghost es = entry_models(t.extra@);
    let mut i: usize = 0;
    while i < t.extra.len()
        invariant
            0 <= i <= t.extra@.len(),
            es == entry_models(t.extra@),
            es.len() == t.extra@.len(),
            forall|j: int| 0 <= j < t.extra@.len() ==> #[trigger] es[j] == (t.extra@[j].0@, model(t.extra@[j].1)),
            entry_index(es, key@, 0) == entry_index(es, key@, i as int),
        decreases t.extra.len() - i,
    {
        assert(es[i as int] == (t.extra@[i as int].0@, model(t.extra@[i as int].1)));
        if str_eq(t.extra[i].0.as_str(), key) {
            return match &t.extra[i].1 {
                Json::Str(s) => Some(s.as_str()),
                _ => None,
            };
        }
        i = i + 1;
    }
    None
}

fn opt_str_eq(a: Option<&str>, b: Option<&str>) -> (r: bool)
    ensures
        r == (match a {
            Some(x) => Some(x@),
            None => None,
        } == match b {
            Some(y) => Some(y@),
            None => None,
        }),
{
    match (a, b) {
        (Some(x), Some(y)) => str_eq(x, y),
        (None, None) => true,
        _ => false,
    }
}

/// For each conversation item, the position of the output that answers it
/// when it is a function call: the first later "function_call_output" with
/// the same call id (any, when the call has none).
pub fn call_outputs(turns: &Vec<ConversationTurn>) -> (r: Vec<Option<usize>>)
    ensures
        r@.len() == turns@.len(),
        forall|i: int|
            0 <= i < turns@.len() ==> match #[trigger] r@[i] {
                Some(j) => spec_call_outputs(turns@)[i] == Some(j as int),
                None => spec_call_outputs(turns@)[i] is None,
            },
{
    let ghost ts = turns@;
    let mut r: Vec<Option<usize>> = Vec::new();
    let mut i: usize = 0;
    while i < turns.len()
        invariant
            0 <= i <= turns@.len(),
            ts == turns@,
            r@.len() == i,
            forall|q: int|
                0 <= q < i ==> match #[trigger] r@[q] {
                    Some(j) => spec_call_outputs(ts)[q] == Some(j as int),
                    None => spec_call_outputs(ts)[q] is None,
                },
        decreases turns@.len() - i,
    {
        let t = &turns[i];
        let mut found: Option<usize> = None;
        if str_eq(t.turn_type.as_str(), "function_call") {
            let call_id = extra_text_exec(t, "call_id");
            let ghost cid = match call_id {
                Some(x) => Some(x@),
                None => None,
            };
            assert(cid == extra_text(ts[i as int], "call_id"@));
            let mut j: usize = i + 1;
            while j < turns.len() && found.is_none()
                invariant
                    i + 1 <= j <= turns@.len(),
                    ts == turns@,
                    i < ts.len(),
                    cid == extra_text(ts[i as int], "call_id"@),
                    cid == match call_id {
                        Some(x) => Some(x@),
                        None => None,
                    },
                    match found {
                        Some(k) => first_output(ts, cid, i + 1) == Some(k as int),
                        None => first_output(ts, cid, i + 1) == first_output(ts, cid, j as int),
                    },
                decreases turns@.len() - j,
            {
                let u = &turns[j];
                if str_eq(u.turn_type.as_str(), "function_call_output") {
                    let out_id = extra_text_exec(u, "call_id");
                    if call_id.is_none() || opt_str_eq(call_id, out_id) {
                        found = Some(j);
                    }
                }
                j = j + 1;
            }
            assert(spec_call_outputs(ts)[i as int] == first_output(ts, cid, i + 1));
        } else {
            assert(spec_call_outputs(ts)[i as int] is None);
        }
        r.push(found);
        i = i + 1;
    }
    r
}

/// About this many rows sample the growth of the model's context.
pub const CONTEXT_SAMPLE_ROWS: usize = 15;

/// The stride of the sample: one in every `total / 15` calls when there are
/// more than fifteen, else every call.
pub open spec fn sample_step(total: int) -> int {
    if total > CONTEXT_SAMPLE_ROWS { total / (CONTEXT_SAMPLE_ROWS as int) } else { 1 }
}

/// The positions among the first `n` of `total` calls that the sample
/// shows: multiples of the stride, and the last call.
pub open spec fn sample_upto(total: int, n: int) -> Seq<int>
    decreases n,
{
    if n <= 0 {
        Seq::empty()
    } else {
        let r = sample_upto(total, n - 1);
        let i = n - 1;
        if i % sample_step(total) == 0 || i == total - 1 {
            r.push(i)
        } else {
            r
        }
    }
}

/// The positions of the language-model calls that the context-growth table
/// shows, in order.
pub fn context_sample(total: usize) -> (r: Vec<usize>)
    ensures
        r@.map_values(|i: usize| i as int) == sample_upto(total as int, total as int),
{
    let step: usize = if total > CONTEXT_SAMPLE_ROWS { total / CONTEXT_SAMPLE_ROWS } else { 1 };
    assert(step as int == sample_step(total as int));
    assert(step >= 1);
    let mut r: Vec<usize> = Vec::new();
    let mut i: usize = 0;
    assert(r@.map_values(|i: usize| i as int) =~= sample_upto(total as int, 0));
    while i < total
        invariant
            0 <= i <= total,
            step as int == sample_step(total as int),
            step >= 1,
            r@.map_values(|i: usize| i as int) == sample_upto(total as int, i as int),
        decreases total - i,
    {
        if i % step == 0 || i == total - 1 {
            let ghost before = r@;
            r.push(i);
            assert(r@.map_values(|i: usize| i as int) =~= before.map_values(|i: usize| i as int).push(i as int));
        }
        i = i + 1;
    }
    r
}

} // verus!
