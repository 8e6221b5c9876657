//! The export of games: as readable text, as Portable Game Notation and
//! as JSON, with the texts of times and durations that they show.

use crate::api::{board_ascii, board_to_ascii};
use crate::game::GameState;
use crate::invariants::lemma_faithful_games_are_short;
use crate::json::{json_prettied, json_pretty, json_quote, json_quoted};
use crate::movegen::{in_check, is_in_check};
use crate::storage::{ArchiveView, GameArchive, ReplayError, ReplayFault};
use crate::text::{
    chars_of, decimal, decimal_padded, is_blank, is_whitespace, lowered, part_texts, push_chars,
    push_decimal, push_decimal_padded, same_text, split_chars, split_on,
};
use crate::types::{entry_texts, map_entries, promotion_text, GameResult, MoveJson, MoveText};
use vstd::prelude::*;

verus! {

/// The formats in which a game can be exported.
#[derive(Debug, Clone, Copy, PartialEq, Eq, Structural)]
pub enum ExportFormat {
    /// Readable text with a board diagram.
    Text,
    /// Portable Game Notation.
    Pgn,
    /// JSON.
    Json,
}

/// The format that a name stands for, in whatever case it is written:
/// `text` or `txt`, `pgn`, `json`.
pub open spec fn format_named(s: Seq<char>) -> Option<ExportFormat> {
    let l = lowered(s);
    if l == "text"@ || l == "txt"@ {
        Some(ExportFormat::Text)
    } else if l == "pgn"@ {
        Some(ExportFormat::Pgn)
    } else if l == "json"@ {
        Some(ExportFormat::Json)
    } else {
        None
    }
}

/// The message for a name that stands for no format.
pub open spec fn unknown_format_message(s: Seq<char>) -> Seq<char> {
    "Unknown export format '"@ + s + "'. Valid: text, pgn, json"@
}

impl ExportFormat {
    /// Reads a format from its name, in whatever case it is written.
    pub fn from_str(s: &str) -> (r: Result<ExportFormat, String>)
        ensures
            match r {
                Ok(f) => format_named(s@) == Some(f),
                Err(e) => format_named(s@) is None && e@ == unknown_format_message(s@),
            },
    {
        let chars = chars_of(s);
        let lower = crate::text::lower_string(&chars, 0, chars.len());
        assert(chars@.subrange(0, chars@.len() as int) =~= s@);
        let l = lower.as_str();
        if same_text(l, "text") || same_text(l, "txt") {
            Ok(ExportFormat::Text)
        } else if same_text(l, "pgn") {
            Ok(ExportFormat::Pgn)
        } else if same_text(l, "json") {
            Ok(ExportFormat::Json)
        } else {
            let mut e = String::new();
            e.append("Unknown export format '");
            e.append(s);
            e.append("'. Valid: text, pgn, json");
            assert(e@ =~= unknown_format_message(s@));
            Err(e)
        }
    }
}

// ---------------------------------------------------------------------------
// Times
// ---------------------------------------------------------------------------
/// A date of the civil calendar.
pub struct CivilDate {
    pub year: int,
    pub month: int,
    pub day: int,
}

/// The civil date of a day, counted from 1 January 1970. The count is
/// shifted to 1 March of the year 0, the start of a cycle of 400 years
/// (146097 days) in which leap days fall at the ends of years; the year of
/// the cycle, the day of that year and the month follow from it.
pub open spec fn civil_date(days: int) -> CivilDate {
    let z = days + 719468;
    let era = z / 146097;
    let doe = z - era * 146097;
    let yoe = (doe - doe / 1460 + doe / 36524 - doe / 146096) / 365;
    let doy = doe - (365 * yoe + yoe / 4 - yoe / 100);
    let mp = (5 * doy + 2) / 153;
    let month = if mp < 10 {
        mp + 3
    } else {
        mp - 9
    };
    CivilDate {
        year: yoe + era * 400 + (if month <= 2 {
            1int
        } else {
            0int
        }),
        month,
        day: doy - (153 * mp + 2) / 5 + 1,
    }
}

/// A leap year: a year that four divides, unless a hundred divides it and
/// four hundred does not.
pub open spec fn is_leap(y: int) -> bool {
    y % 4 == 0 && (y % 100 != 0 || y % 400 == 0)
}

/// The number of days of a month.
pub open spec fn days_in_month(m: int, leap: bool) -> int {
    if m == 2 {
        if leap {
            29
        } else {
            28
        }
    } else if m == 4 || m == 6 || m == 9 || m == 11 {
        30
    } else {
        31
    }
}

/// The number of days of a year before a month.
pub open spec fn days_before_month(m: int, leap: bool) -> int
    decreases m,
{
    if m <= 1 {
        0
    } else {
        days_before_month(m - 1, leap) + days_in_month(m - 1, leap)
    }
}

/// The number of leap years from the year 1 to the year before `y`.
pub open spec fn leap_years_before(y: int) -> int {
    (y - 1) / 4 - (y - 1) / 100 + (y - 1) / 400
}

/// The number of days from 1 January 1970 to 1 January of a year.
pub open spec fn days_before_year(y: int) -> int {
    365 * (y - 1970) + leap_years_before(y) - leap_years_before(1970)
}

/// Year, month and day are a date of the calendar.
pub open spec fn is_date(d: CivilDate) -> bool {
    1 <= d.month <= 12 && 1 <= d.day <= days_in_month(d.month, is_leap(d.year))
}

/// The number of days from 1 January 1970 to a date.
pub open spec fn day_number(d: CivilDate) -> int {
    days_before_year(d.year) + days_before_month(d.month, is_leap(d.year)) + d.day - 1
}

/// The days of a year before each month, written out.
proof fn lemma_days_before_month(leap: bool)
    ensures
        days_before_month(1, leap) == 0,
        days_before_month(2, leap) == 31,
        days_before_month(3, leap) == 59 + (if leap { 1int } else { 0int }),
        days_before_month(4, leap) == 90 + (if leap { 1int } else { 0int }),
        days_before_month(5, leap) == 120 + (if leap { 1int } else { 0int }),
        days_before_month(6, leap) == 151 + (if leap { 1int } else { 0int }),
        days_before_month(7, leap) == 181 + (if leap { 1int } else { 0int }),
        days_before_month(8, leap) == 212 + (if leap { 1int } else { 0int }),
        days_before_month(9, leap) == 243 + (if leap { 1int } else { 0int }),
        days_before_month(10, leap) == 273 + (if leap { 1int } else { 0int }),
        days_before_month(11, leap) == 304 + (if leap { 1int } else { 0int }),
        days_before_month(12, leap) == 334 + (if leap { 1int } else { 0int }),
{
    reveal_with_fuel(days_before_month, 13);
}

/// The year of a cycle of 400 years in which a day of the cycle lies, and
/// the day's place in that year; years start on 1 March, and every fourth
/// year is a day longer, but of the hundredth years only the last.
proof fn lemma_year_of_era(doe: u32)
    requires
        doe < 146097,
    ensures
        ({
            let yoe = (doe - doe / 1460 + doe / 36524 - doe / 146096) / 365;
            let first = 365 * yoe + yoe / 4 - yoe / 100;
            &&& yoe < 400
            &&& first <= doe
            &&& doe - first < 365 + (if yoe % 4 == 3 && (yoe % 100 != 99 || yoe == 399) {
                1int
            } else {
                0int
            })
        }),
{
    assert(doe < 146097 ==> ({
        let yoe = (doe - doe / 1460 + doe / 36524 - doe / 146096) / 365;
        let first = 365 * yoe + yoe / 4 - yoe / 100;
        yoe < 400 && first <= doe && (if yoe % 4 == 3 && (yoe % 100 != 99 || yoe == 399) {
            doe - first < 366
        } else {
            doe - first < 365
        })
    })) by (bit_vector);
}

/// The month in which a day of a year that starts on 1 March lies, and the
/// day's place in that month.
proof fn lemma_month_of_year(doy: u32)
    requires
        doy < 366,
    ensures
        ({
            let mp = (5 * doy + 2) / 153;
            let before = (153 * mp + 2) / 5;
            let after = (153 * (mp + 1) + 2) / 5;
            &&& mp < 12
            &&& before <= doy < after
            &&& mp == 0 ==> before == 0 && after == 31
            &&& mp == 1 ==> before == 31 && after == 61
            &&& mp == 2 ==> before == 61 && after == 92
            &&& mp == 3 ==> before == 92 && after == 122
            &&& mp == 4 ==> before == 122 && after == 153
            &&& mp == 5 ==> before == 153 && after == 184
            &&& mp == 6 ==> before == 184 && after == 214
            &&& mp == 7 ==> before == 214 && after == 245
            &&& mp == 8 ==> before == 245 && after == 275
            &&& mp == 9 ==> before == 275 && after == 306
            &&& mp == 10 ==> before == 306 && after == 337
            &&& mp == 11 ==> before == 337 && after == 367
        }),
{
    assert(doy < 366 ==> ({
        let mp = (5 * doy + 2) / 153;
        let before = (153 * mp + 2) / 5;
        let after = (153 * (mp + 1) + 2) / 5;
        mp < 12 && before <= doy && doy < after && (mp == 0 ==> before == 0 && after == 31) && (mp
            == 1 ==> before == 31 && after == 61) && (mp == 2 ==> before == 61 && after == 92) && (
        mp == 3 ==> before == 92 && after == 122) && (mp == 4 ==> before == 122 && after == 153)
            && (mp == 5 ==> before == 153 && after == 184) && (mp == 6 ==> before == 184 && after
            == 214) && (mp == 7 ==> before == 214 && after == 245) && (mp == 8 ==> before == 245
            && after == 275) && (mp == 9 ==> before == 275 && after == 306) && (mp == 10 ==> before
            == 306 && after == 337) && (mp == 11 ==> before == 337 && after == 367)
    })) by (bit_vector);
}

/// The leap years among the years of a cycle of 400 years that start on 1
/// March: how many leap days lie before such a year, and which of the
/// years that start on 1 January is a leap year.
proof fn lemma_leap_days_of_era(yoe: u32)
    requires
        yoe < 400,
    ensures
        yoe >= 1 ==> (yoe - 1) / 4 - (yoe - 1) / 100 + (yoe - 1) / 400 + (if is_leap(yoe as int) {
            1int
        } else {
            0int
        }) == yoe / 4 - yoe / 100,
        yoe / 4 - yoe / 100 + yoe / 400 == yoe / 4 - yoe / 100,
        is_leap(yoe + 1) <==> yoe % 4 == 3 && (yoe % 100 != 99 || yoe == 399),
        yoe / 100 <= yoe / 4,
{
    assert(yoe < 400 ==> yoe / 400 == 0 && yoe / 100 <= yoe / 4 && (((yoe + 1) % 4 == 0 && ((yoe
        + 1) % 100 != 0 || (yoe + 1) % 400 == 0)) <==> (yoe % 4 == 3 && (yoe % 100 != 99 || yoe
        == 399)))) by (bit_vector);
    assert(1 <= yoe < 400 ==> (yoe - 1) / 400 == 0 && (yoe - 1) / 100 <= (yoe - 1) / 4 && (if yoe
        % 4 == 0 && (yoe % 100 != 0 || yoe % 400 == 0) {
        (yoe - 1) / 4 + 1 + yoe / 100 == yoe / 4 + (yoe - 1) / 100
    } else {
        (yoe - 1) / 4 + yoe / 100 == yoe / 4 + (yoe - 1) / 100
    })) by (bit_vector);
}

/// Adding a multiple of the divisor adds the multiple's factor to the
/// quotient and leaves the remainder.
proof fn lemma_shift_by_multiple(x: int, j: int, d: int)
    requires
        d > 0,
    ensures
        (x + j * d) / d == x / d + j,
        (x + j * d) % d == x % d,
{
    vstd::arithmetic::div_mod::lemma_hoist_over_denominator(x, j, d as nat);
    vstd::arithmetic::div_mod::lemma_mod_multiples_vanish(j, x, d);
    assert(d * j + x == x + j * d) by (nonlinear_arith);
}

/// The leap years before a year, by the cycle of 400 years in which the
/// year lies.
proof fn lemma_leap_years_by_era(era: int, yy: int)
    ensures
        leap_years_before(era * 400 + yy) == era * 97 + (yy - 1) / 4 - (yy - 1) / 100 + (yy - 1)
            / 400,
        is_leap(era * 400 + yy) == is_leap(yy),
{
    let y = era * 400 + yy;
    lemma_shift_by_multiple(yy - 1, era * 100, 4);
    lemma_shift_by_multiple(yy - 1, era * 4, 100);
    lemma_shift_by_multiple(yy - 1, era, 400);
    lemma_shift_by_multiple(yy, era * 100, 4);
    lemma_shift_by_multiple(yy, era * 4, 100);
    lemma_shift_by_multiple(yy, era, 400);
    assert(y - 1 == (yy - 1) + (era * 100) * 4);
    assert(y - 1 == (yy - 1) + (era * 4) * 100);
    assert(y - 1 == (yy - 1) + era * 400);
    assert(y == yy + (era * 100) * 4);
    assert(y == yy + (era * 4) * 100);
    assert(y == yy + era * 400);
}

/// The number of a day, put together from the cycle of 400 years, the
/// year of the cycle that starts on 1 March, and the day of that year.
proof fn lemma_day_number_of_parts(era: int, yoe: int, doy: int, mp: int, before: int)
    requires
        0 <= yoe < 400,
        0 <= mp < 12,
        0 <= before <= doy,
        mp == 0 ==> before == 0,
        mp == 1 ==> before == 31,
        mp == 2 ==> before == 61,
        mp == 3 ==> before == 92,
        mp == 4 ==> before == 122,
        mp == 5 ==> before == 153,
        mp == 6 ==> before == 184,
        mp == 7 ==> before == 214,
        mp == 8 ==> before == 245,
        mp == 9 ==> before == 275,
        mp == 10 ==> before == 306,
        mp == 11 ==> before == 337,
    ensures
        day_number(
            CivilDate {
                year: era * 400 + yoe + (if mp >= 10 {
                    1int
                } else {
                    0int
                }),
                month: if mp < 10 {
                    mp + 3
                } else {
                    mp - 9
                },
                day: doy - before + 1,
            },
        ) == era * 146097 + 365 * yoe + yoe / 4 - yoe / 100 + doy - 719468,
{
    let carry = if mp >= 10 {
        1int
    } else {
        0int
    };
    let yy = yoe + carry;
    let y = era * 400 + yy;
    let m = if mp < 10 {
        mp + 3
    } else {
        mp - 9
    };
    lemma_leap_years_by_era(era, yy);
    lemma_leap_days_of_era(yoe as u32);
    lemma_days_before_month(is_leap(y));
    let inner = (yy - 1) / 4 - (yy - 1) / 100 + (yy - 1) / 400;
    let leap_days = yoe / 4 - yoe / 100;
    assert(leap_years_before(1970) == 477);
    assert(days_before_year(y) == 146097 * era + 365 * yy + inner - 719527);
    if carry == 1 {
        assert(inner == leap_days);
        assert(days_before_month(m, is_leap(y)) == before - 306);
    } else {
        if yoe == 0 {
            assert(inner == -1);
            assert(is_leap(y));
        } else {
            assert(inner + (if is_leap(yoe) {
                1int
            } else {
                0int
            }) == leap_days);
        }
        assert(is_leap(y) == is_leap(yoe));
        assert(days_before_month(m, is_leap(y)) == before + 59 + (if is_leap(y) {
            1int
        } else {
            0int
        }));
    }
}

/// The civil date of a day is a date of the calendar, and it is the date
/// of that day: so many days lie between 1 January 1970 and it.
pub proof fn lemma_civil_date_is_the_date(days: int)
    requires
        0 <= days <= u64::MAX - 719468,
    ensures
        is_date(civil_date(days)),
        day_number(civil_date(days)) == days,
{
    let z = days + 719468;
    let era = z / 146097;
    let doe = z - era * 146097;
    assert(0 <= doe < 146097);
    lemma_year_of_era(doe as u32);
    let yoe = (doe - doe / 1460 + doe / 36524 - doe / 146096) / 365;
    let doy = doe - (365 * yoe + yoe / 4 - yoe / 100);
    lemma_month_of_year(doy as u32);
    let mp = (5 * doy + 2) / 153;
    let before = (153 * mp + 2) / 5;
    lemma_day_number_of_parts(era, yoe, doy, mp, before);
    lemma_leap_days_of_era(yoe as u32);
    let c = civil_date(days);
    let yy = yoe + (if mp >= 10 {
        1int
    } else {
        0int
    });
    lemma_leap_years_by_era(era, yy);
    if mp < 10 {
        lemma_leap_years_by_era(era, yoe);
    }
}

/// Converts days since 1 January 1970 to year, month and day: to the date
/// of the calendar that lies so many days after 1 January 1970.
pub fn days_to_date(days: u64) -> (r: (u64, u64, u64))
    requires
        days + 719468 <= u64::MAX,
    ensures
        r.0 == civil_date(days as int).year,
        r.1 == civil_date(days as int).month,
        r.2 == civil_date(days as int).day,
        is_date(CivilDate { year: r.0 as int, month: r.1 as int, day: r.2 as int }),
        day_number(CivilDate { year: r.0 as int, month: r.1 as int, day: r.2 as int }) == days,
{
    let z: u64 = days + 719468;
    let era: u64 = z / 146097;
    let doe: u64 = z - era * 146097;
    proof {
        lemma_year_of_era(doe as u32);
    }
    let yoe: u64 = (doe - doe / 1460 + doe / 36524 - doe / 146096) / 365;
    let y: u64 = yoe + era * 400;
    let doy: u64 = doe - (365 * yoe + yoe / 4 - yoe / 100);
    proof {
        lemma_month_of_year(doy as u32);
    }
    let mp: u64 = (5 * doy + 2) / 153;
    let d: u64 = doy - (153 * mp + 2) / 5 + 1;
    let m: u64 = if mp < 10 {
        mp + 3
    } else {
        mp - 9
    };
    let y: u64 = if m <= 2 {
        y + 1
    } else {
        y
    };
    proof {
        lemma_civil_date_is_the_date(days as int);
    }
    (y, m, d)
}

/// The text of a Unix time: `—` for 0, else the UTC date and time of day
/// as `YYYY-MM-DD hh:mm:ss UTC`.
pub open spec fn timestamp_text(ts: u64) -> Seq<char> {
    if ts == 0 {
        "—"@
    } else {
        let date = civil_date(ts as int / 86400);
        let t = ts as int % 86400;
        decimal_padded(date.year as nat, 4) + "-"@ + decimal_padded(date.month as nat, 2) + "-"@
            + decimal_padded(date.day as nat, 2) + " "@ + decimal_padded((t / 3600) as nat, 2)
            + ":"@ + decimal_padded(((t % 3600) / 60) as nat, 2) + ":"@ + decimal_padded(
            (t % 60) as nat,
            2,
        ) + " UTC"@
    }
}

/// Writes a Unix time as a UTC date and time; `—` for 0, the time of a
/// game that has not ended.
pub fn format_timestamp(ts: u64) -> (r: String)
    ensures
        r@ == timestamp_text(ts),
{
    if ts == 0 {
        return "—".to_owned();
    }
    let days: u64 = ts / 86400;
    let time_of_day: u64 = ts % 86400;
    let hours: u64 = time_of_day / 3600;
    let minutes: u64 = (time_of_day % 3600) / 60;
    let seconds: u64 = time_of_day % 60;
    let (year, month, day) = days_to_date(days);
    let mut out = String::new();
    push_decimal_padded(&mut out, year, 4);
    out.append("-");
    push_decimal_padded(&mut out, month, 2);
    out.append("-");
    push_decimal_padded(&mut out, day, 2);
    out.append(" ");
    push_decimal_padded(&mut out, hours, 2);
    out.append(":");
    push_decimal_padded(&mut out, minutes, 2);
    out.append(":");
    push_decimal_padded(&mut out, seconds, 2);
    out.append(" UTC");
    assert(out@ =~= timestamp_text(ts));
    out
}

/// The text of a duration in seconds: seconds alone below a minute,
/// minutes and seconds below an hour, else hours, minutes and seconds.
pub open spec fn duration_text(seconds: u64) -> Seq<char> {
    let s = seconds as nat;
    if s < 60 {
        decimal(s) + "s"@
    } else if s < 3600 {
        decimal(s / 60) + "m "@ + decimal(s % 60) + "s"@
    } else {
        decimal(s / 3600) + "h "@ + decimal((s % 3600) / 60) + "m "@ + decimal(s % 60) + "s"@
    }
}

/// Writes a duration in seconds, such as `45s`, `1m 30s` or `1h 1m 1s`.
pub fn format_duration(seconds: u64) -> (r: String)
    ensures
        r@ == duration_text(seconds),
{
    let mut out = String::new();
    if seconds < 60 {
        push_decimal(&mut out, seconds);
        out.append("s");
    } else if seconds < 3600 {
        push_decimal(&mut out, seconds / 60);
        out.append("m ");
        push_decimal(&mut out, seconds % 60);
        out.append("s");
    } else {
        push_decimal(&mut out, seconds / 3600);
        out.append("h ");
        push_decimal(&mut out, (seconds % 3600) / 60);
        out.append("m ");
        push_decimal(&mut out, seconds % 60);
        out.append("s");
    }
    assert(out@ =~= duration_text(seconds));
    out
}

/// A move for a reader: source, an arrow, target and, for a promotion, `=`
/// and the letter.
pub open spec fn readable_move(t: MoveText) -> Seq<char> {
    t.from + "→"@ + t.to + (match t.promotion {
        Some(p) => "="@ + p,
        None => Seq::empty(),
    })
}

/// Writes a move for a reader, such as `e2→e4` or `e7→e8=Q`.
pub fn format_move_notation(mv: &MoveJson) -> (r: String)
    ensures
        r@ == readable_move(mv@),
{
    let mut s = String::new();
    s.append(mv.from.as_str());
    s.append("→");
    s.append(mv.to.as_str());
    match &mv.promotion {
        Some(p) => {
            s.append("=");
            s.append(p.as_str());
        },
        None => {},
    }
    assert(s@ =~= readable_move(mv@));
    s
}

// ---------------------------------------------------------------------------
// Wrapping
// ---------------------------------------------------------------------------
/// The words of a text: its longest runs of characters that are not white
/// space, in order.
pub open spec fn words(s: Seq<char>) -> Seq<Seq<char>>
    decreases s.len(),
{
    if s.len() == 0 {
        Seq::empty()
    } else {
        let before = words(s.drop_last());
        if is_blank(s.last()) {
            before
        } else if s.len() >= 2 && !is_blank(s[s.len() - 2]) && before.len() > 0 {
            before.drop_last().push(before.last().push(s.last()))
        } else {
            before.push(seq![s.last()])
        }
    }
}

/// The number of bytes of a character in UTF-8.
pub open spec fn utf8_len(c: char) -> int {
    if c <= '\u{7f}' {
        1
    } else if c <= '\u{7ff}' {
        2
    } else if c <= '\u{ffff}' {
        3
    } else {
        4
    }
}

/// The number of bytes of a word in UTF-8.
pub open spec fn byte_len(w: Seq<char>) -> int
    decreases w.len(),
{
    if w.len() == 0 {
        0
    } else {
        byte_len(w.drop_last()) + utf8_len(w.last())
    }
}

/// A text wrapped into lines, and the length in bytes of its last line.
pub struct Wrapped {
    pub text: Seq<char>,
    pub line_len: int,
}

/// The words wrapped into lines: words are joined by single spaces, and a
/// word that would make a line that is not empty longer than `width` bytes
/// starts a new line.
pub open spec fn wrapped(ws: Seq<Seq<char>>, width: int) -> Wrapped
    decreases ws.len(),
{
    if ws.len() == 0 {
        Wrapped { text: Seq::empty(), line_len: 0 }
    } else {
        let before = wrapped(ws.drop_last(), width);
        let n = byte_len(ws.last());
        let breaks = before.line_len > 0 && before.line_len + 1 + n > width;
        let line = if breaks {
            0
        } else {
            before.line_len
        };
        Wrapped {
            text: before.text + (if breaks {
                seq!['\n']
            } else {
                Seq::empty()
            }) + (if line > 0 {
                seq![' ']
            } else {
                Seq::empty()
            }) + ws.last(),
            line_len: line + (if line > 0 {
                1int
            } else {
                0int
            }) + n,
        }
    }
}

/// A word has at least no bytes.
pub proof fn lemma_byte_len_not_negative(w: Seq<char>)
    ensures
        byte_len(w) >= 0,
    decreases w.len(),
{
    if w.len() > 0 {
        lemma_byte_len_not_negative(w.drop_last());
    }
}

/// Wrapped lines fit: after any number of words, the last line is no
/// longer than the width, unless it holds a single word that is longer by
/// itself.
pub proof fn lemma_wrapped_lines_fit(ws: Seq<Seq<char>>, width: int)
    requires
        width >= 0,
    ensures
        0 <= wrapped(ws, width).line_len,
        ws.len() > 0 ==> wrapped(ws, width).line_len <= width || wrapped(ws, width).line_len
            == byte_len(ws.last()),
    decreases ws.len(),
{
    if ws.len() > 0 {
        lemma_wrapped_lines_fit(ws.drop_last(), width);
        lemma_byte_len_not_negative(ws.last());
    }
}

/// Splits a text into its words.
fn split_words(chars: &Vec<char>) -> (r: Vec<Vec<char>>)
    ensures
        part_texts(r@) == words(chars@),
{
    let mut done: Vec<Vec<char>> = Vec::new();
    let mut cur: Vec<char> = Vec::new();
    let mut i: usize = 0;
    assert(chars@.take(0) =~= Seq::<char>::empty());
    assert(part_texts(done@) =~= words(chars@.take(0)));
    while i < chars.len()
        invariant
            i <= chars.len(),
            cur@.len() == 0 ==> part_texts(done@) == words(chars@.take(i as int)) && (i == 0
                || is_blank(chars@[i - 1])),
            cur@.len() > 0 ==> part_texts(done@).push(cur@) == words(chars@.take(i as int)) && i
                > 0 && !is_blank(chars@[i - 1]),
        decreases chars.len() - i,
    {
        let c = chars[i];
        let ghost prefix = chars@.take(i + 1);
        assert(prefix.drop_last() =~= chars@.take(i as int));
        assert(prefix.last() == c);
        if is_whitespace(c) {
            if cur.len() > 0 {
                let ghost before = part_texts(done@);
                done.push(cur);
                assert(part_texts(done@) =~= before.push(cur@));
                cur = Vec::new();
            }
        } else {
            let ghost was = cur@;
            let ghost ws = words(chars@.take(i as int));
            cur.push(c);
            proof {
                if was.len() > 0 {
                    assert(ws.drop_last() =~= part_texts(done@));
                    assert(ws.last() == was);
                } else {
                    assert(cur@ =~= seq![c]);
                }
            }
        }
        i = i + 1;
    }
    assert(chars@.take(i as int) =~= chars@);
    if cur.len() > 0 {
        let ghost before = part_texts(done@);
        done.push(cur);
        assert(part_texts(done@) =~= before.push(cur@));
    }
    done
}

/// Returns the number of bytes of a word in UTF-8.
fn word_byte_len(w: &Vec<char>) -> (n: u128)
    ensures
        n == byte_len(w@),
        n <= 4 * w@.len(),
{
    let mut n: u128 = 0;
    let mut i: usize = 0;
    assert(w@.take(0) =~= Seq::<char>::empty());
    while i < w.len()
        invariant
            i <= w.len(),
            n == byte_len(w@.take(i as int)),
            n <= 4 * i,
        decreases w.len() - i,
    {
        let c = w[i];
        assert(w@.take(i + 1).drop_last() =~= w@.take(i as int));
        let k: u128 = if c <= '\u{7f}' {
            1
        } else if c <= '\u{7ff}' {
            2
        } else if c <= '\u{ffff}' {
            3
        } else {
            4
        };
        n = n + k;
        i = i + 1;
    }
    assert(w@.take(i as int) =~= w@);
    n
}

/// Wraps move text at word boundaries so that no line is longer than
/// `max_width` bytes, unless a single word is.
pub fn wrap_pgn_text(text: &str, max_width: usize) -> (r: String)
    ensures
        r@ == wrapped(words(text@), max_width as int).text,
{
    let chars = chars_of(text);
    let ws = split_words(&chars);
    let mut result = String::new();
    let mut line_len: u128 = 0;
    let mut i: usize = 0;
    let ghost all = words(text@);
    assert(all.take(0) =~= Seq::<Seq<char>>::empty());
    while i < ws.len()
        invariant
            i <= ws.len(),
            all == part_texts(ws@),
            result@ == wrapped(all.take(i as int), max_width as int).text,
            line_len == wrapped(all.take(i as int), max_width as int).line_len,
            line_len <= 0x8_0000_0000_0000_0000,
        decreases ws.len() - i,
    {
        let word = &ws[i];
        let word_len = word_byte_len(word);
        let count: usize = word.len();
        assert(word_len <= 4 * 0x1_0000_0000_0000_0000);
        let ghost before = result@;
        assert(all.take(i + 1).drop_last() =~= all.take(i as int));
        assert(all.take(i + 1).last() == word@);
        if line_len > 0 && line_len + 1 + word_len > max_width as u128 {
            result.push('\n');
            line_len = 0;
        }
        if line_len > 0 {
            result.push(' ');
            line_len = line_len + 1;
        }
        push_chars(&mut result, word, 0, count);
        line_len = line_len + word_len;
        assert(word@.subrange(0, word@.len() as int) =~= word@);
        assert(result@ =~= wrapped(all.take(i + 1), max_width as int).text);
        i = i + 1;
    }
    assert(all.take(i as int) =~= all);
    result
}


// ---------------------------------------------------------------------------
// Portable Game Notation
// ---------------------------------------------------------------------------
/// The result of a game in Portable Game Notation; `*` for a game that
/// goes on.
pub open spec fn pgn_result(r: Option<GameResult>) -> Seq<char> {
    match r {
        Some(GameResult::WhiteWins) => "1-0"@,
        Some(GameResult::BlackWins) => "0-1"@,
        Some(GameResult::Draw) => "1/2-1/2"@,
        None => "*"@,
    }
}

/// The move text of the first `n` moves: before each move of White its
/// number and a full stop; each move as its squares and promotion letter;
/// all separated by single spaces.
pub open spec fn pgn_moves(moves: Seq<MoveText>, n: int) -> Seq<char>
    decreases n,
{
    if n <= 0 {
        Seq::empty()
    } else {
        let before = pgn_moves(moves, n - 1);
        let i = n - 1;
        let m = moves[i];
        before + (if i % 2 == 0 {
            (if before.len() > 0 {
                " "@
            } else {
                Seq::empty()
            }) + decimal((i / 2 + 1) as nat) + "."@
        } else {
            Seq::empty()
        }) + " "@ + m.from + m.to + promotion_text(m.promotion)
    }
}

/// The date tag of a game that started at a Unix time; question marks for
/// the time 0.
pub open spec fn pgn_date(start: u64) -> Seq<char> {
    if start > 0 {
        let date = civil_date(start as int / 86400);
        "[Date \""@ + decimal_padded(date.year as nat, 4) + "."@ + decimal_padded(
            date.month as nat,
            2,
        ) + "."@ + decimal_padded(date.day as nat, 2) + "\"]\n"@
    } else {
        "[Date \"????.??.??\"]\n"@
    }
}

/// The tags of a game in Portable Game Notation.
pub open spec fn pgn_tags(a: ArchiveView) -> Seq<char> {
    "[Event \"CheckAI Game\"]\n[Site \"CheckAI Server\"]\n"@ + pgn_date(a.start_timestamp)
        + "[Round \"1\"]\n[White \"Agent White\"]\n[Black \"Agent Black\"]\n[Result \""@
        + pgn_result(a.result) + "\"]\n[GameId \""@ + a.game_id.text() + "\"]\n"@
        + pgn_termination(a.end_reason)
}

/// The move text of a game with its result at the end.
pub open spec fn pgn_move_text(a: ArchiveView) -> Seq<char> {
    let moves = pgn_moves(a.moves, a.moves.len() as int);
    moves + (if moves.len() > 0 {
        " "@
    } else {
        Seq::empty()
    }) + pgn_result(a.result)
}

/// A game in Portable Game Notation: the tags, an empty line, and the move
/// text wrapped at 80 columns.
pub open spec fn pgn_text(a: ArchiveView) -> Seq<char> {
    pgn_tags(a) + "\n"@ + wrapped(words(pgn_move_text(a)), 80).text + "\n"@
}

/// Writes the date tag of a game.
fn pgn_date_text(start: u64) -> (r: String)
    ensures
        r@ == pgn_date(start),
{
    if start > 0 {
        let (y, m, d) = days_to_date(start / 86400);
        let mut out = "[Date \"".to_owned();
        push_decimal_padded(&mut out, y, 4);
        out.append(".");
        push_decimal_padded(&mut out, m, 2);
        out.append(".");
        push_decimal_padded(&mut out, d, 2);
        out.append("\"]\n");
        out
    } else {
        "[Date \"????.??.??\"]\n".to_owned()
    }
}

/// The termination tag of a game that has ended, and nothing for a game
/// that has not.
pub open spec fn pgn_termination(reason: Option<crate::types::GameEndReason>) -> Seq<char> {
    match reason {
        Some(r) => "[Termination \""@ + r.text() + "\"]\n"@,
        None => Seq::empty(),
    }
}

/// Writes the termination tag of a game.
fn pgn_termination_text(reason: Option<crate::types::GameEndReason>) -> (r: String)
    ensures
        r@ == pgn_termination(reason),
{
    match reason {
        Some(r) => {
            let mut out = "[Termination \"".to_owned();
            let t = r.to_string();
            out.append(t.as_str());
            out.append("\"]\n");
            out
        },
        None => String::new(),
    }
}

/// Writes the tags of a game.
fn pgn_tags_text(archive: &GameArchive) -> (r: String)
    ensures
        r@ == pgn_tags(archive@),
{
    let mut out = "[Event \"CheckAI Game\"]\n[Site \"CheckAI Server\"]\n".to_owned();
    let date = pgn_date_text(archive.start_timestamp);
    out.append(date.as_str());
    out.append("[Round \"1\"]\n[White \"Agent White\"]\n[Black \"Agent Black\"]\n[Result \"");
    out.append(result_text(archive.result));
    out.append("\"]\n[GameId \"");
    let id = archive.game_id.to_string();
    out.append(id.as_str());
    out.append("\"]\n");
    let termination = pgn_termination_text(archive.end_reason);
    out.append(termination.as_str());
    out
}

/// Returns the result of a game in Portable Game Notation.
fn result_text(r: Option<GameResult>) -> (t: &'static str)
    ensures
        t@ == pgn_result(r),
{
    match r {
        Some(GameResult::WhiteWins) => "1-0",
        Some(GameResult::BlackWins) => "0-1",
        Some(GameResult::Draw) => "1/2-1/2",
        None => "*",
    }
}

/// Formats an archived game in Portable Game Notation, with the moves in
/// coordinate notation. It always succeeds.
pub fn format_pgn(archive: &GameArchive) -> (r: Result<String, String>)
    ensures
        r matches Ok(text) && text@ == pgn_text(archive@),
{
    let mut out = pgn_tags_text(archive);
    out.append("\n");
    let ghost moves = archive@.moves;

    let mut move_text = String::new();
    let mut i: usize = 0;
    while i < archive.moves.len()
        invariant
            i <= archive.moves.len(),
            moves == archive@.moves,
            move_text@ == pgn_moves(moves, i as int),
        decreases archive.moves.len() - i,
    {
        let ghost before = move_text@;
        let mv = &archive.moves[i];
        assert(moves[i as int] == mv@);
        if i % 2 == 0 {
            if move_text.as_str().unicode_len() > 0 {
                move_text.append(" ");
            }
            push_decimal(&mut move_text, (i / 2 + 1) as u64);
            move_text.append(".");
        }
        move_text.append(" ");
        move_text.append(mv.from.as_str());
        move_text.append(mv.to.as_str());
        match &mv.promotion {
            Some(p) => {
                move_text.append(p.as_str());
            },
            None => {},
        }
        i = i + 1;
        assert(move_text@ =~= pgn_moves(moves, i as int));
    }
    if move_text.as_str().unicode_len() > 0 {
        move_text.append(" ");
    }
    move_text.append(result_text(archive.result));
    assert(move_text@ =~= pgn_move_text(archive@));
    let lines = wrap_pgn_text(move_text.as_str(), 80);
    out.append(lines.as_str());
    out.append("\n");
    assert(out@ =~= pgn_text(archive@));
    Ok(out)
}


// ---------------------------------------------------------------------------
// Several games in one output
// ---------------------------------------------------------------------------
/// The first `n` texts, joined by a separator.
pub open spec fn joined(texts: Seq<Seq<char>>, sep: Seq<char>, n: int) -> Seq<char>
    decreases n,
{
    if n <= 0 {
        Seq::empty()
    } else if n == 1 {
        texts[0]
    } else {
        joined(texts, sep, n - 1) + sep + texts[n - 1]
    }
}

/// What separates the exports of two games in a format.
pub open spec fn export_separator(format: ExportFormat) -> Seq<char> {
    match format {
        ExportFormat::Text =>
            "\n\n━━━━━━━━━━━━━━━━━━━━━━━━━━━━━━━━━━━━━━━━━━━━━━━━━━━━━━━━━━\n\n"@,
        ExportFormat::Pgn => "\n\n"@,
        ExportFormat::Json => "\n,\n"@,
    }
}

/// The exports of several games as one output: joined by the format's
/// separator, and for JSON put in the brackets of an array.
pub open spec fn combined(format: ExportFormat, texts: Seq<Seq<char>>) -> Seq<char> {
    let body = joined(texts, export_separator(format), texts.len() as int);
    if format == ExportFormat::Json {
        "[\n"@ + body + "\n]\n"@
    } else {
        body
    }
}

/// The texts of a list of strings.
pub open spec fn string_texts(v: Seq<String>) -> Seq<Seq<char>> {
    Seq::new(v.len(), |i: int| v[i]@)
}

/// Combines the exports of several games into one output.
pub fn combine_exports(format: ExportFormat, texts: &Vec<String>) -> (r: String)
    ensures
        r@ == combined(format, string_texts(texts@)),
{
    let separator = match format {
        ExportFormat::Text =>
            "\n\n━━━━━━━━━━━━━━━━━━━━━━━━━━━━━━━━━━━━━━━━━━━━━━━━━━━━━━━━━━\n\n",
        ExportFormat::Pgn => "\n\n",
        ExportFormat::Json => "\n,\n",
    };
    let ghost all = string_texts(texts@);
    let mut body = String::new();
    let mut i: usize = 0;
    while i < texts.len()
        invariant
            i <= texts.len(),
            all == string_texts(texts@),
            separator@ == export_separator(format),
            body@ == joined(all, separator@, i as int),
        decreases texts.len() - i,
    {
        let ghost before = body@;
        if i > 0 {
            body.append(separator);
        }
        body.append(texts[i].as_str());
        assert(all[i as int] == texts@[i as int]@);
        i = i + 1;
        assert(body@ =~= joined(all, separator@, i as int));
    }
    match format {
        ExportFormat::Json => {
            let mut out = String::new();
            out.append("[\n");
            out.append(body.as_str());
            out.append("\n]\n");
            out
        },
        _ => body,
    }
}

// ---------------------------------------------------------------------------
// JSON
// ---------------------------------------------------------------------------
/// Why a game was not exported.
#[derive(Debug, Clone, PartialEq, Eq)]
pub enum ExportError {
    /// The archive's moves cannot be replayed.
    Replay(ReplayError),
    /// The JSON document could not be written.
    Json,
}

/// A text as JSON, or `null` for none.
pub open spec fn json_optional(t: Option<Seq<char>>) -> Seq<char> {
    match t {
        Some(s) => json_quoted(s),
        None => "null"@,
    }
}

/// The numbers and the side of the move with index `i`, as the first
/// members of a JSON object.
pub open spec fn json_move_head(i: int) -> Seq<char> {
    "{\"half_move\":"@ + decimal((i + 1) as nat) + ",\"move_number\":"@ + decimal(
        (i / 2 + 1) as nat,
    ) + ",\"side\":"@ + (if i % 2 == 0 {
        "\"White\""@
    } else {
        "\"Black\""@
    })
}

/// The squares, the promotion and the notation of a move, as the last
/// members of a JSON object.
pub open spec fn json_move_tail(m: MoveText) -> Seq<char> {
    ",\"from\":"@ + json_quoted(m.from) + ",\"to\":"@ + json_quoted(m.to) + ",\"promotion\":"@
        + json_optional(m.promotion) + ",\"notation\":"@ + json_quoted(readable_move(m)) + "}"@
}

/// The first `n` moves of a game as the members of a JSON array: for each
/// move its number among the half-moves and among the full moves, its
/// side, its squares, its promotion and its notation for a reader.
pub open spec fn json_moves(moves: Seq<MoveText>, n: int) -> Seq<char>
    decreases n,
{
    if n <= 0 {
        Seq::empty()
    } else {
        json_moves(moves, n - 1) + (if n > 1 {
            ","@
        } else {
            Seq::empty()
        }) + json_move_head(n - 1) + json_move_tail(moves[n - 1])
    }
}

/// The first `n` occupied squares of a board as the members of a JSON
/// object: the square's name and the piece's character.
pub open spec fn json_squares(entries: Seq<(Seq<char>, Seq<char>)>, n: int) -> Seq<char>
    decreases n,
{
    if n <= 0 {
        Seq::empty()
    } else {
        json_squares(entries, n - 1) + (if n > 1 {
            ","@
        } else {
            Seq::empty()
        }) + json_quoted(entries[n - 1].0) + ":"@ + json_quoted(entries[n - 1].1)
    }
}

/// The JSON document of an archived game and its final position, written
/// without white space.
pub open spec fn json_document(a: ArchiveView, last: GameState) -> Seq<char> {
    let board = map_entries(last.position.board, 64);
    "{\"game_id\":"@ + json_quoted(a.game_id.text()) + ",\"start_timestamp\":"@ + decimal(
        a.start_timestamp as nat,
    ) + ",\"end_timestamp\":"@ + decimal(a.end_timestamp as nat) + ",\"start_time\":"@
        + json_quoted(timestamp_text(a.start_timestamp)) + ",\"end_time\":"@ + json_quoted(
        timestamp_text(a.end_timestamp),
    ) + ",\"result\":"@ + json_optional(
        match a.result {
            Some(r) => Some(r.text()),
            None => None,
        },
    ) + ",\"end_reason\":"@ + json_optional(
        match a.end_reason {
            Some(r) => Some(r.text()),
            None => None,
        },
    ) + ",\"move_count\":"@ + decimal(a.moves.len()) + ",\"fullmove_count\":"@ + decimal(
        a.moves.len() / 2 + a.moves.len() % 2,
    ) + ",\"moves\":["@ + json_moves(a.moves, a.moves.len() as int) + "],\"final_position\":{"@
        + json_squares(board, board.len() as int) + "},\"final_turn\":"@ + json_quoted(
        last.position.turn.name(),
    ) + "}"@
}

/// Appends a text as JSON, or `null` for none.
fn push_json_optional(out: &mut String, t: &Option<String>)
    ensures
        final(out)@ == old(out)@ + json_optional(
            match t {
                Some(s) => Some(s@),
                None => None,
            },
        ),
{
    match t {
        Some(s) => {
            let q = json_quote(s.as_str());
            out.append(q.as_str());
        },
        None => {
            out.append("null");
        },
    }
}

/// Writes the numbers and the side of the move with index `i`.
fn json_move_head_text(i: usize) -> (r: String)
    requires
        i < usize::MAX,
    ensures
        r@ == json_move_head(i as int),
{
    let mut out = String::new();
    out.append("{\"half_move\":");
    push_decimal(&mut out, (i + 1) as u64);
    out.append(",\"move_number\":");
    push_decimal(&mut out, (i / 2 + 1) as u64);
    out.append(",\"side\":");
    if i % 2 == 0 {
        out.append("\"White\"");
    } else {
        out.append("\"Black\"");
    }
    assert(out@ =~= json_move_head(i as int));
    out
}

/// Writes the squares, the promotion and the notation of a move.
fn json_move_tail_text(mv: &MoveJson) -> (r: String)
    ensures
        r@ == json_move_tail(mv@),
{
    let mut out = String::new();
    out.append(",\"from\":");
    let from = json_quote(mv.from.as_str());
    out.append(from.as_str());
    out.append(",\"to\":");
    let to = json_quote(mv.to.as_str());
    out.append(to.as_str());
    out.append(",\"promotion\":");
    push_json_optional(&mut out, &mv.promotion);
    out.append(",\"notation\":");
    let notation = format_move_notation(mv);
    let quoted = json_quote(notation.as_str());
    out.append(quoted.as_str());
    out.append("}");
    assert(out@ =~= json_move_tail(mv@));
    out
}

/// Appends the moves of a game as the members of a JSON array.
fn push_json_moves(out: &mut String, moves: &Vec<MoveJson>)
    requires
        moves@.len() < usize::MAX,
    ensures
        final(out)@ == old(out)@ + json_moves(
            crate::storage::move_texts(moves@),
            moves@.len() as int,
        ),
{
    let ghost all = crate::storage::move_texts(moves@);
    let mut i: usize = 0;
    assert(out@ =~= old(out)@ + json_moves(all, 0));
    while i < moves.len()
        invariant
            i <= moves.len(),
            moves@.len() < usize::MAX,
            all == crate::storage::move_texts(moves@),
            out@ == old(out)@ + json_moves(all, i as int),
        decreases moves.len() - i,
    {
        let ghost before = json_moves(all, i as int);
        let mv = &moves[i];
        assert(all[i as int] == mv@);
        let head = json_move_head_text(i);
        let tail = json_move_tail_text(mv);
        if i > 0 {
            out.append(",");
        }
        out.append(head.as_str());
        out.append(tail.as_str());
        i = i + 1;
        assert(out@ =~= old(out)@ + (before + (if i > 1 {
            ","@
        } else {
            Seq::empty()
        }) + head@ + tail@));
    }
}

/// Appends the occupied squares of a board as the members of a JSON
/// object.
fn push_json_squares(out: &mut String, entries: &Vec<(String, String)>)
    ensures
        final(out)@ == old(out)@ + json_squares(entry_texts(entries@), entries@.len() as int),
{
    let ghost all = entry_texts(entries@);
    let mut i: usize = 0;
    assert(out@ =~= old(out)@ + json_squares(all, 0));
    while i < entries.len()
        invariant
            i <= entries.len(),
            all == entry_texts(entries@),
            out@ == old(out)@ + json_squares(all, i as int),
        decreases entries.len() - i,
    {
        let entry = &entries[i];
        assert(all[i as int] == (entry.0@, entry.1@));
        if i > 0 {
            out.append(",");
        }
        let name = json_quote(entry.0.as_str());
        out.append(name.as_str());
        out.append(":");
        let piece = json_quote(entry.1.as_str());
        out.append(piece.as_str());
        i = i + 1;
        assert(out@ =~= old(out)@ + json_squares(all, i as int));
    }
}

/// What the export of an archived game as JSON gives: the error of the
/// replay where the moves cannot be replayed, else the indented text of
/// the game's JSON document.
pub open spec fn json_export(a: ArchiveView) -> Result<Seq<char>, Option<ReplayFault>> {
    match a.replayed(a.moves.len() as int) {
        Err(e) => Err(Some(e)),
        Ok(last) => match json_prettied(json_document(a, last)) {
            Some(t) => Ok(t),
            None => Err(None),
        },
    }
}

/// Formats an archived game as indented JSON: its data, its moves and its
/// final position.
pub fn format_json(archive: &GameArchive) -> (r: Result<String, ExportError>)
    ensures
        match r {
            Ok(t) => json_export(archive@) == Ok::<Seq<char>, Option<ReplayFault>>(t@),
            Err(ExportError::Replay(e)) => json_export(archive@) == Err::<
                Seq<char>,
                Option<ReplayFault>,
            >(Some(e@)),
            Err(ExportError::Json) => json_export(archive@) == Err::<
                Seq<char>,
                Option<ReplayFault>,
            >(None),
        },
{
    let game = match archive.replay_full() {
        Ok(g) => g,
        Err(e) => {
            return Err(ExportError::Replay(e));
        },
    };
    proof {
        lemma_faithful_games_are_short(game@);
    }
    let count = archive.moves.len();
    let mut doc = String::new();
    doc.append("{\"game_id\":");
    let id_text = archive.game_id.to_string();
    let id = json_quote(id_text.as_str());
    doc.append(id.as_str());
    doc.append(",\"start_timestamp\":");
    push_decimal(&mut doc, archive.start_timestamp);
    doc.append(",\"end_timestamp\":");
    push_decimal(&mut doc, archive.end_timestamp);
    doc.append(",\"start_time\":");
    let start_text = format_timestamp(archive.start_timestamp);
    let start = json_quote(start_text.as_str());
    doc.append(start.as_str());
    doc.append(",\"end_time\":");
    let end_text = format_timestamp(archive.end_timestamp);
    let end = json_quote(end_text.as_str());
    doc.append(end.as_str());
    doc.append(",\"result\":");
    let result = match archive.result {
        Some(r) => Some(r.to_string()),
        None => None,
    };
    push_json_optional(&mut doc, &result);
    doc.append(",\"end_reason\":");
    let reason = match archive.end_reason {
        Some(r) => Some(r.to_string()),
        None => None,
    };
    push_json_optional(&mut doc, &reason);
    doc.append(",\"move_count\":");
    push_decimal(&mut doc, count as u64);
    doc.append(",\"fullmove_count\":");
    push_decimal(&mut doc, (count / 2 + count % 2) as u64);
    doc.append(",\"moves\":[");
    push_json_moves(&mut doc, &archive.moves);
    doc.append("],\"final_position\":{");
    let board = game.board.to_map();
    push_json_squares(&mut doc, &board);
    doc.append("},\"final_turn\":");
    let turn_text = game.turn.to_string();
    let turn = json_quote(turn_text.as_str());
    doc.append(turn.as_str());
    doc.append("}");
    assert(doc@ =~= json_document(archive@, game@));
    match json_pretty(doc.as_str()) {
        Some(t) => Ok(t),
        None => Err(ExportError::Json),
    }
}


// ---------------------------------------------------------------------------
// Readable text
// ---------------------------------------------------------------------------
/// A text, with spaces before it up to a width.
pub open spec fn pad_left(s: Seq<char>, width: int) -> Seq<char> {
    Seq::new(
        if s.len() >= width {
            0nat
        } else {
            (width - s.len()) as nat
        },
        |i: int| ' ',
    ) + s
}

/// Appends a text with spaces before it up to a width.
fn push_padded(out: &mut String, s: &str, width: usize)
    ensures
        final(out)@ == old(out)@ + pad_left(s@, width as int),
{
    let len = s.unicode_len();
    let spaces: usize = if len >= width {
        0
    } else {
        width - len
    };
    let mut i: usize = 0;
    assert(out@ =~= old(out)@ + Seq::new(0nat, |j: int| ' '));
    while i < spaces
        invariant
            i <= spaces,
            out@ == old(out)@ + Seq::new(i as nat, |j: int| ' '),
        decreases spaces - i,
    {
        out.push(' ');
        i = i + 1;
        assert(out@ =~= old(out)@ + Seq::new(i as nat, |j: int| ' '));
    }
    out.append(s);
    assert(out@ =~= old(out)@ + pad_left(s@, width as int));
}

/// The heading of an export as text.
pub open spec fn text_banner() -> Seq<char> {
    "╔══════════════════════════════════════════════════════════╗\n║                    CHECKAI GAME EXPORT                  ║\n╚══════════════════════════════════════════════════════════╝\n\n"@
}

/// The times of a game in an export as text: start, end, and the duration
/// if the game has ended after it started.
pub open spec fn text_times(a: ArchiveView) -> Seq<char> {
    "  Started:    "@ + timestamp_text(a.start_timestamp) + "\n  Ended:      "@ + timestamp_text(
        a.end_timestamp,
    ) + "\n"@ + (if a.end_timestamp > a.start_timestamp && a.start_timestamp > 0 {
        "  Duration:   "@ + duration_text((a.end_timestamp - a.start_timestamp) as u64) + "\n"@
    } else {
        Seq::empty()
    })
}

/// The outcome of a game in an export as text: the number of moves, the
/// result and the reason.
pub open spec fn text_outcome(a: ArchiveView) -> Seq<char> {
    "  Moves:      "@ + decimal(a.moves.len()) + " half-moves ("@ + decimal(
        a.moves.len() / 2 + a.moves.len() % 2,
    ) + " full moves)\n  Result:     "@ + (match a.result {
        Some(r) => r.text(),
        None => "In progress"@,
    }) + "\n"@ + (match a.end_reason {
        Some(r) => "  Reason:     "@ + r.text() + "\n"@,
        None => Seq::empty(),
    })
}

/// The sizes of a game's archive in an export as text: the raw size, and
/// the compressed size with its share of the raw size, if they are given.
pub open spec fn text_sizes(a: ArchiveView, compressed: Option<(u64, Seq<char>)>) -> Seq<char> {
    "  Raw size:   "@ + decimal((41 + 2 * a.moves.len()) as nat) + " bytes\n"@ + (
    match compressed {
        Some((bytes, share)) => "  Compressed: "@ + decimal(bytes as nat) + " bytes ("@ + share
            + "%)\n"@,
        None => Seq::empty(),
    })
}

/// A row of the table of moves: the number of the full move, White's move
/// and Black's move, each in its column.
pub open spec fn text_row(number: int, white: MoveText, black: Option<MoveText>) -> Seq<char> {
    "│ "@ + pad_left(decimal(number as nat), 3) + " │ "@ + pad_left(readable_move(white), 11)
        + " │ "@ + pad_left(
        match black {
            Some(m) => readable_move(m),
            None => Seq::empty(),
        },
        12,
    ) + " │\n"@
}

/// The first `n` rows of the table of moves.
pub open spec fn text_rows(moves: Seq<MoveText>, n: int) -> Seq<char>
    decreases n,
{
    if n <= 0 {
        Seq::empty()
    } else {
        let k = n - 1;
        text_rows(moves, n - 1) + text_row(
            n,
            moves[2 * k],
            if 2 * k + 1 < moves.len() {
                Some(moves[2 * k + 1])
            } else {
                None
            },
        )
    }
}

/// The table of moves in an export as text.
pub open spec fn text_table(moves: Seq<MoveText>) -> Seq<char> {
    "\n┌──────────────────────────────────┐\n│           MOVE LIST              │\n├─────┬─────────────┬──────────────┤\n│  #  │    White    │    Black     │\n├─────┼─────────────┼──────────────┤\n"@
        + text_rows(moves, (moves.len() / 2 + moves.len() % 2) as int)
        + "└─────┴─────────────┴──────────────┘\n"@
}

/// The first `n` lines, each after two spaces and ended by a line feed.
pub open spec fn indented(lines: Seq<Seq<char>>, n: int) -> Seq<char>
    decreases n,
{
    if n <= 0 {
        Seq::empty()
    } else {
        indented(lines, n - 1) + "  "@ + lines[n - 1] + "\n"@
    }
}

/// The lines of a text: its parts between line feeds, without the empty
/// part after a last line feed.
pub open spec fn line_count(s: Seq<char>) -> int {
    let parts = split_on(s, '\n');
    if parts.last().len() == 0 {
        parts.len() - 1
    } else {
        parts.len() as int
    }
}

/// The final position in an export as text: the board's diagram, and
/// below it why the game has ended, or that the side to move is in check.
pub open spec fn text_position(last: GameState) -> Seq<char> {
    let diagram = board_ascii(last.position.board, last.position.turn);
    "\n  Final Position:\n\n"@ + indented(split_on(diagram, '\n'), line_count(diagram)) + (
    if last.result is Some {
        match last.end_reason {
            Some(r) => "\n  Game ended by: "@ + r.text() + "\n"@,
            None => Seq::empty(),
        }
    } else if in_check(last.position.board, last.position.turn) {
        "\n  "@ + last.position.turn.name() + " is in check.\n"@
    } else {
        Seq::empty()
    })
}

/// An archived game as readable text: heading, identifier, times, outcome,
/// sizes, the table of moves and the final position.
pub open spec fn text_export(
    a: ArchiveView,
    compressed: Option<(u64, Seq<char>)>,
    last: GameState,
) -> Seq<char> {
    text_banner() + "  Game ID:    "@ + a.game_id.text() + "\n"@ + text_times(a) + text_outcome(a)
        + text_sizes(a, compressed) + text_table(a.moves) + text_position(last)
}

/// Writes the times of a game.
fn times_text(archive: &GameArchive) -> (r: String)
    ensures
        r@ == text_times(archive@),
{
    let mut out = String::new();
    out.append("  Started:    ");
    let start = format_timestamp(archive.start_timestamp);
    out.append(start.as_str());
    out.append("\n  Ended:      ");
    let end = format_timestamp(archive.end_timestamp);
    out.append(end.as_str());
    out.append("\n");
    if archive.end_timestamp > archive.start_timestamp && archive.start_timestamp > 0 {
        out.append("  Duration:   ");
        let d = format_duration(archive.end_timestamp - archive.start_timestamp);
        out.append(d.as_str());
        out.append("\n");
    }
    assert(out@ =~= text_times(archive@));
    out
}

/// Writes the outcome of a game.
fn outcome_text(archive: &GameArchive) -> (r: String)
    ensures
        r@ == text_outcome(archive@),
{
    let count = archive.moves.len();
    let mut out = String::new();
    out.append("  Moves:      ");
    push_decimal(&mut out, count as u64);
    out.append(" half-moves (");
    push_decimal(&mut out, (count / 2 + count % 2) as u64);
    out.append(" full moves)\n  Result:     ");
    match archive.result {
        Some(r) => {
            let t = r.to_string();
            out.append(t.as_str());
        },
        None => {
            out.append("In progress");
        },
    }
    out.append("\n");
    match archive.end_reason {
        Some(r) => {
            out.append("  Reason:     ");
            let t = r.to_string();
            out.append(t.as_str());
            out.append("\n");
        },
        None => {},
    }
    assert(out@ =~= text_outcome(archive@));
    out
}

/// Writes the sizes of a game's archive.
fn sizes_text(archive: &GameArchive, compressed_bytes: Option<u64>, share: &str) -> (r: String)
    requires
        41 + 2 * archive@.moves.len() <= usize::MAX,
    ensures
        r@ == text_sizes(
            archive@,
            match compressed_bytes {
                Some(c) => Some((c, share@)),
                None => None,
            },
        ),
{
    let mut out = String::new();
    out.append("  Raw size:   ");
    push_decimal(&mut out, archive.raw_size() as u64);
    out.append(" bytes\n");
    match compressed_bytes {
        Some(c) => {
            out.append("  Compressed: ");
            push_decimal(&mut out, c);
            out.append(" bytes (");
            out.append(share);
            out.append("%)\n");
        },
        None => {},
    }
    assert(out@ =~= text_sizes(
        archive@,
        match compressed_bytes {
            Some(c) => Some((c, share@)),
            None => None,
        },
    ));
    out
}

/// Writes one row of the table of moves.
fn row_text(number: usize, white: &MoveJson, black: Option<&MoveJson>) -> (r: String)
    ensures
        r@ == text_row(
            number as int,
            white@,
            match black {
                Some(m) => Some(m@),
                None => None,
            },
        ),
{
    let mut out = String::new();
    out.append("│ ");
    let n = crate::text::decimal_string(number as u64);
    push_padded(&mut out, n.as_str(), 3);
    out.append(" │ ");
    let w = format_move_notation(white);
    push_padded(&mut out, w.as_str(), 11);
    out.append(" │ ");
    let b = match black {
        Some(m) => format_move_notation(m),
        None => String::new(),
    };
    push_padded(&mut out, b.as_str(), 12);
    out.append(" │\n");
    assert(out@ =~= text_row(
        number as int,
        white@,
        match black {
            Some(m) => Some(m@),
            None => None,
        },
    ));
    out
}

/// Writes the rows of the table of moves.
fn rows_text(moves: &Vec<MoveJson>) -> (r: String)
    ensures
        r@ == text_rows(
            crate::storage::move_texts(moves@),
            (moves@.len() / 2 + moves@.len() % 2) as int,
        ),
{
    let ghost all = crate::storage::move_texts(moves@);
    let len = moves.len();
    let rows: usize = len / 2 + len % 2;
    let mut body = String::new();
    let mut k: usize = 0;
    assert(body@ =~= text_rows(all, 0));
    while k < rows
        invariant
            k <= rows,
            len == moves@.len(),
            2 * rows <= len + 1,
            all == crate::storage::move_texts(moves@),
            body@ == text_rows(all, k as int),
        decreases rows - k,
    {
        assert(2 * k + 1 <= len);
        let white = &moves[2 * k];
        assert(all[2 * k] == white@);
        let black = if 2 * k + 1 < len {
            assert(all[2 * k + 1] == moves@[2 * k + 1]@);
            Some(&moves[2 * k + 1])
        } else {
            None
        };
        let row = row_text(k + 1, white, black);
        body.append(row.as_str());
        k = k + 1;
    }
    body
}

/// Writes the table of moves.
fn table_text(moves: &Vec<MoveJson>) -> (r: String)
    ensures
        r@ == text_table(crate::storage::move_texts(moves@)),
{
    let body = rows_text(moves);
    let mut out = String::new();
    out.append(
        "\n┌──────────────────────────────────┐\n│           MOVE LIST              │\n├─────┬─────────────┬──────────────┤\n│  #  │    White    │    Black     │\n├─────┼─────────────┼──────────────┤\n",
    );
    out.append(body.as_str());
    out.append("└─────┴─────────────┴──────────────┘\n");
    assert(out@ =~= text_table(crate::storage::move_texts(moves@)));
    out
}

/// Writes the final position.
fn position_text(game: &crate::game::Game) -> (r: String)
    ensures
        r@ == text_position(game@),
{
    let diagram = board_to_ascii(&game.board, game.turn);
    let chars = chars_of(diagram.as_str());
    let lines = split_chars(&chars, '\n');
    let ghost parts = split_on(diagram@, '\n');
    let count: usize = if lines[lines.len() - 1].len() == 0 {
        lines.len() - 1
    } else {
        lines.len()
    };
    assert(parts.last() == lines@[lines@.len() - 1]@);
    let mut body = String::new();
    let mut i: usize = 0;
    assert(body@ =~= indented(parts, 0));
    while i < count
        invariant
            i <= count,
            count <= lines@.len(),
            parts == part_texts(lines@),
            body@ == indented(parts, i as int),
        decreases count - i,
    {
        let line = &lines[i];
        assert(parts[i as int] == line@);
        body.append("  ");
        push_chars(&mut body, line, 0, line.len());
        body.append("\n");
        assert(line@.subrange(0, line@.len() as int) =~= line@);
        i = i + 1;
        assert(body@ =~= indented(parts, i as int));
    }
    let mut out = String::new();
    out.append("\n  Final Position:\n\n");
    out.append(body.as_str());
    if game.is_over() {
        match game.end_reason {
            Some(r) => {
                out.append("\n  Game ended by: ");
                let t = r.to_string();
                out.append(t.as_str());
                out.append("\n");
            },
            None => {},
        }
    } else if is_in_check(&game.board, game.turn) {
        out.append("\n  ");
        let t = game.turn.to_string();
        out.append(t.as_str());
        out.append(" is in check.\n");
    }
    assert(out@ =~= text_position(game@));
    out
}

/// What the export of an archived game as text gives: the error of the
/// replay where the moves cannot be replayed, else the text of the game
/// with its final position.
pub open spec fn text_export_of(a: ArchiveView, compressed: Option<(u64, Seq<char>)>) -> Result<
    Seq<char>,
    ReplayFault,
> {
    match a.replayed(a.moves.len() as int) {
        Err(e) => Err(e),
        Ok(last) => Ok(text_export(a, compressed, last)),
    }
}

/// Formats an archived game as readable text: its data, the table of its
/// moves and the diagram of its final position. `share` is the compressed
/// size in hundredths of the raw size, as it is to be shown.
pub fn format_text(archive: &GameArchive, compressed_bytes: Option<u64>, share: &str) -> (r: Result<
    String,
    ReplayError,
>)
    ensures
        match r {
            Ok(t) => text_export_of(
                archive@,
                match compressed_bytes {
                    Some(c) => Some((c, share@)),
                    None => None,
                },
            ) == Ok::<Seq<char>, ReplayFault>(t@),
            Err(e) => text_export_of(
                archive@,
                match compressed_bytes {
                    Some(c) => Some((c, share@)),
                    None => None,
                },
            ) == Err::<Seq<char>, ReplayFault>(e@),
        },
{
    let game = match archive.replay_full() {
        Ok(g) => g,
        Err(e) => {
            return Err(e);
        },
    };
    proof {
        lemma_faithful_games_are_short(game@);
    }
    let mut out = String::new();
    out.append(
        "╔══════════════════════════════════════════════════════════╗\n║                    CHECKAI GAME EXPORT                  ║\n╚══════════════════════════════════════════════════════════╝\n\n",
    );
    out.append("  Game ID:    ");
    let id = archive.game_id.to_string();
    out.append(id.as_str());
    out.append("\n");
    let times = times_text(archive);
    out.append(times.as_str());
    let outcome = outcome_text(archive);
    out.append(outcome.as_str());
    let sizes = sizes_text(archive, compressed_bytes, share);
    out.append(sizes.as_str());
    let table = table_text(&archive.moves);
    out.append(table.as_str());
    let position = position_text(&game);
    out.append(position.as_str());
    assert(out@ =~= text_export(
        archive@,
        match compressed_bytes {
            Some(c) => Some((c, share@)),
            None => None,
        },
        game@,
    ));
    Ok(out)
}

/// The export of an archived game in a format: its text, or why there is
/// none (the fault of the replay, or nothing where the JSON document could
/// not be written).
pub open spec fn game_export(
    a: ArchiveView,
    compressed: Option<(u64, Seq<char>)>,
    format: ExportFormat,
) -> Result<Seq<char>, Option<ReplayFault>> {
    match format {
        ExportFormat::Text => match text_export_of(a, compressed) {
            Ok(t) => Ok(t),
            Err(e) => Err(Some(e)),
        },
        ExportFormat::Pgn => Ok(pgn_text(a)),
        ExportFormat::Json => json_export(a),
    }
}

/// Formats an archived game in the given format. The compressed size and
/// its share are shown by the text format only.
pub fn format_game(
    archive: &GameArchive,
    compressed_bytes: Option<u64>,
    share: &str,
    format: ExportFormat,
) -> (r: Result<String, ExportError>)
    ensures
        match r {
            Ok(t) => game_export(
                archive@,
                match compressed_bytes {
                    Some(c) => Some((c, share@)),
                    None => None,
                },
                format,
            ) == Ok::<Seq<char>, Option<ReplayFault>>(t@),
            Err(ExportError::Replay(e)) => game_export(
                archive@,
                match compressed_bytes {
                    Some(c) => Some((c, share@)),
                    None => None,
                },
                format,
            ) == Err::<Seq<char>, Option<ReplayFault>>(Some(e@)),
            Err(ExportError::Json) => game_export(
                archive@,
                match compressed_bytes {
                    Some(c) => Some((c, share@)),
                    None => None,
                },
                format,
            ) == Err::<Seq<char>, Option<ReplayFault>>(None),
        },
{
    match format {
        ExportFormat::Text => match format_text(archive, compressed_bytes, share) {
            Ok(t) => Ok(t),
            Err(e) => Err(ExportError::Replay(e)),
        },
        ExportFormat::Pgn => match format_pgn(archive) {
            Ok(t) => Ok(t),
            Err(_) => Err(ExportError::Json),
        },
        ExportFormat::Json => format_json(archive),
    }
}

} // verus!
