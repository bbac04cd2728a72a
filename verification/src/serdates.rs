//! The flexible timestamp codec: an optional instant whose JSON form is an
//! RFC 3339 string.  On the way in, a string with or without fractional
//! seconds and with `Z` or a numeric offset is accepted, and the literal
//! string `0` means "no value"; on the way out a present instant becomes its
//! UTC rendering with a `Z` suffix.  JSON null means "no value" both ways.

use crate::calendar::days_in_month;
use crate::calendar::next_date;
use crate::calendar::prev_date;
use crate::calendar::step_back;
use crate::calendar::step_forward;
use crate::calendar::month_length;
use crate::calendar::valid_date;
use crate::calendar::Timestamp;
use crate::digits::all_digits;
use crate::digits::digit_run;
use crate::digits::digits_val;
use crate::digits::int_digits;
use crate::digits::i64_to_string;
use crate::digits::padded_digits;
use crate::digits::pow10;
use crate::digits::pow10_u32;
use crate::digits::push_padded_digits;
use crate::digits::read_digits;
use crate::errors::DecodeError;
use crate::json::JsonValue;
use vstd::prelude::*;
use vstd::string::StrSliceExecFns;
use vstd::string::StringExecFns;

verus! {

/// `n` digit characters stand at position `i` of `s`.
pub open spec fn digits_at(s: Seq<char>, i: int, n: int) -> bool {
    i >= 0 && i + n <= s.len() && all_digits(s.subrange(i, i + n))
}

/// The number the `n` characters at position `i` spell.
pub open spec fn num_at(s: Seq<char>, i: int, n: int) -> int {
    digits_val(s.subrange(i, i + n))
}

/// The fixed-position head `YYYY-MM-DDThh:mm:ss`; RFC 3339 also allows a
/// lower-case `t`.
pub open spec fn ts_head_ok(s: Seq<char>) -> bool {
    &&& s.len() >= 19
    &&& digits_at(s, 0, 4)
    &&& s[4] == '-'
    &&& digits_at(s, 5, 2)
    &&& s[7] == '-'
    &&& digits_at(s, 8, 2)
    &&& (s[10] == 'T' || s[10] == 't')
    &&& digits_at(s, 11, 2)
    &&& s[13] == ':'
    &&& digits_at(s, 14, 2)
    &&& s[16] == ':'
    &&& digits_at(s, 17, 2)
}

/// A fractional-second part starts right after the seconds field.
pub open spec fn frac_present(s: Seq<char>) -> bool {
    s.len() > 19 && s[19] == '.'
}

/// The number of fractional digits (zero when there is no fraction).
pub open spec fn frac_len(s: Seq<char>) -> int {
    if frac_present(s) {
        digit_run(s, 20)
    } else {
        0
    }
}

/// A fraction, when present, carries one to nine digits.
pub open spec fn frac_ok(s: Seq<char>) -> bool {
    frac_present(s) ==> 1 <= frac_len(s) <= 9
}

/// Where the timezone designator starts.
pub open spec fn tz_pos(s: Seq<char>) -> int {
    if frac_present(s) {
        20 + frac_len(s)
    } else {
        19
    }
}

/// The designator at `p` is `Z` (either case) and ends the string.
pub open spec fn tz_zulu(s: Seq<char>, p: int) -> bool {
    s.len() == p + 1 && (s[p] == 'Z' || s[p] == 'z')
}

/// The designator at `p` is a numeric offset `+hh:mm` or `-hh:mm` and ends
/// the string.
pub open spec fn tz_numeric(s: Seq<char>, p: int) -> bool {
    &&& s.len() == p + 6
    &&& (s[p] == '+' || s[p] == '-')
    &&& digits_at(s, p + 1, 2)
    &&& s[p + 3] == ':'
    &&& digits_at(s, p + 4, 2)
    &&& num_at(s, p + 1, 2) <= 23
    &&& num_at(s, p + 4, 2) <= 59
}

/// The timezone designator is well-formed.
pub open spec fn tz_ok(s: Seq<char>) -> bool {
    tz_zulu(s, tz_pos(s)) || tz_numeric(s, tz_pos(s))
}

/// The whole string matches the RFC 3339 date-time grammar this codec
/// accepts.
pub open spec fn ts_shape_ok(s: Seq<char>) -> bool {
    ts_head_ok(s) && frac_ok(s) && tz_ok(s)
}

/// The year the head spells.
pub open spec fn ts_year(s: Seq<char>) -> int {
    num_at(s, 0, 4)
}

/// The month the head spells.
pub open spec fn ts_month(s: Seq<char>) -> int {
    num_at(s, 5, 2)
}

/// The day the head spells.
pub open spec fn ts_day(s: Seq<char>) -> int {
    num_at(s, 8, 2)
}

/// The hour the head spells.
pub open spec fn ts_hour(s: Seq<char>) -> int {
    num_at(s, 11, 2)
}

/// The minute the head spells.
pub open spec fn ts_minute(s: Seq<char>) -> int {
    num_at(s, 14, 2)
}

/// The second the head spells.
pub open spec fn ts_second(s: Seq<char>) -> int {
    num_at(s, 17, 2)
}

/// The sub-second part in nanoseconds: the fractional digits, padded on the
/// right to nine places.
pub open spec fn ts_nanos(s: Seq<char>) -> int {
    if frac_present(s) {
        digits_val(s.subrange(20, 20 + frac_len(s))) * pow10((9 - frac_len(s)) as nat)
    } else {
        0
    }
}

/// The offset east of UTC, in minutes.
pub open spec fn ts_offset_min(s: Seq<char>) -> int {
    let p = tz_pos(s);
    if tz_zulu(s, p) {
        0
    } else if s[p] == '+' {
        num_at(s, p + 1, 2) * 60 + num_at(s, p + 4, 2)
    } else {
        -(num_at(s, p + 1, 2) * 60 + num_at(s, p + 4, 2))
    }
}

/// The civil clock reading of the head, in seconds of its day.
pub open spec fn ts_raw_secs_of_day(s: Seq<char>) -> int {
    ts_hour(s) * 3600 + ts_minute(s) * 60 + ts_second(s)
}

/// A timestamp from a date, a clock reading in seconds of that day, and a
/// sub-second part.
pub open spec fn make_ts(y: int, m: int, d: int, day_secs: int, nanos: int) -> Timestamp {
    Timestamp {
        year: y as u16,
        month: m as u8,
        day: d as u8,
        hour: (day_secs / 3600) as u8,
        minute: ((day_secs / 60) % 60) as u8,
        second: (day_secs % 60) as u8,
        nanos: nanos as u32,
    }
}

/// The UTC instant the string denotes: its civil reading shifted back by its
/// offset.  An offset is under a day, so at most one civil day is borrowed
/// or carried.
pub open spec fn ts_utc(s: Seq<char>) -> Timestamp {
    let ds = ts_raw_secs_of_day(s) - ts_offset_min(s) * 60;
    let y = ts_year(s);
    let m = ts_month(s);
    let d = ts_day(s);
    if ds < 0 {
        make_ts(prev_date(y, m, d).0, prev_date(y, m, d).1, prev_date(y, m, d).2, ds + 86400, ts_nanos(s))
    } else if ds >= 86400 {
        make_ts(next_date(y, m, d).0, next_date(y, m, d).1, next_date(y, m, d).2, ds - 86400, ts_nanos(s))
    } else {
        make_ts(y, m, d, ds, ts_nanos(s))
    }
}

/// The date and clock fields lie in their calendar and clock ranges.
pub open spec fn ts_fields_ok(s: Seq<char>) -> bool {
    &&& 1 <= ts_month(s) <= 12
    &&& 1 <= ts_day(s) <= days_in_month(ts_year(s), ts_month(s))
    &&& ts_hour(s) <= 23
    &&& ts_minute(s) <= 59
    &&& ts_second(s) <= 59
}

/// Applying the offset keeps the instant inside years 0 to 9999.
pub open spec fn ts_in_range(s: Seq<char>) -> bool {
    let ds = ts_raw_secs_of_day(s) - ts_offset_min(s) * 60;
    if ds < 0 {
        !(ts_year(s) == 0 && ts_month(s) == 1 && ts_day(s) == 1)
    } else if ds >= 86400 {
        !(ts_year(s) == 9999 && ts_month(s) == 12 && ts_day(s) == 31)
    } else {
        true
    }
}

/// The strings the codec accepts as a present instant.
pub open spec fn ts_accepted(s: Seq<char>) -> bool {
    ts_shape_ok(s) && ts_fields_ok(s) && ts_in_range(s)
}

/// The broker's "unset" sentinel: exactly the one-character string `0`.
pub open spec fn is_absent_sentinel(s: Seq<char>) -> bool {
    s == seq!['0']
}

/// The UTC rendering `encode` produces: `YYYY-MM-DDThh:mm:ssZ`, with nine
/// fractional digits inserted when the instant carries a sub-second part.
pub open spec fn ts_render(t: Timestamp) -> Seq<char> {
    padded_digits(t.year as int, 4) + seq!['-'] + padded_digits(t.month as int, 2) + seq!['-']
        + padded_digits(t.day as int, 2) + seq!['T'] + padded_digits(t.hour as int, 2) + seq![':']
        + padded_digits(t.minute as int, 2) + seq![':'] + padded_digits(t.second as int, 2) + (
    if t.nanos == 0 {
        Seq::<char>::empty()
    } else {
        seq!['.'] + padded_digits(t.nanos as int, 9)
    }) + seq!['Z']
}

/// How `encode` renders an optional instant: absent becomes JSON null, a
/// present instant becomes the JSON string of its UTC rendering.
pub open spec fn ts_encoding_ok(v: Option<Timestamp>, j: JsonValue) -> bool {
    match v {
        None => j is Null,
        Some(t) => j matches JsonValue::Text(s) && s@ == ts_render(t),
    }
}

/// Encodes an optional instant for the broker wire format: JSON null when
/// absent, otherwise the JSON string of the instant's UTC rendering.
pub fn encode(v: Option<Timestamp>) -> (j: JsonValue)
    ensures
        ts_encoding_ok(v, j),
{
    match v {
        None => JsonValue::Null,
        Some(t) => JsonValue::Text(render_timestamp(&t)),
    }
}

/// Builds the UTC rendering of `t`.
fn render_timestamp(t: &Timestamp) -> (s: String)
    ensures
        s@ == ts_render(*t),
{
    proof {
        reveal_strlit("-");
        reveal_strlit("T");
        reveal_strlit(":");
        reveal_strlit(".");
        reveal_strlit("Z");
    }
    let mut out = String::new();
    push_padded_digits(&mut out, t.year as u32, 4);
    out.append("-");
    push_padded_digits(&mut out, t.month as u32, 2);
    out.append("-");
    push_padded_digits(&mut out, t.day as u32, 2);
    out.append("T");
    push_padded_digits(&mut out, t.hour as u32, 2);
    out.append(":");
    push_padded_digits(&mut out, t.minute as u32, 2);
    out.append(":");
    push_padded_digits(&mut out, t.second as u32, 2);
    if t.nanos > 0 {
        out.append(".");
        push_padded_digits(&mut out, t.nanos, 9);
    }
    out.append("Z");
    proof {
        assert(out@ =~= ts_render(*t));
    }
    out
}

/// The JSON shapes `decode` accepts: null, the sentinel string `0`, and an
/// RFC 3339 string this codec reads.
pub open spec fn ts_json_accepted(v: JsonValue) -> bool {
    match v {
        JsonValue::Null => true,
        JsonValue::Text(s) => is_absent_sentinel(s@) || ts_accepted(s@),
        _ => false,
    }
}

/// The optional instant a successful decode of `v` yields.
pub open spec fn ts_json_decoded(v: JsonValue) -> Option<Timestamp> {
    match v {
        JsonValue::Text(s) => if is_absent_sentinel(s@) {
            None
        } else {
            Some(ts_utc(s@))
        },
        _ => None,
    }
}

/// The reason `decode` reports for a rejected value.
pub open spec fn ts_error_reason(v: JsonValue) -> Seq<char> {
    match v {
        JsonValue::Text(_) => "invalid RFC3339 timestamp"@,
        _ => "unsupported type for timestamp field"@,
    }
}

/// The offending raw value `decode` reports for a rejected value: the string
/// itself, the decimal rendering of the number, or empty where the whole
/// JSON type was wrong.
pub open spec fn ts_error_value(v: JsonValue) -> Seq<char> {
    match v {
        JsonValue::Text(s) => s@,
        JsonValue::NumInt(n) => int_digits(n as int),
        _ => Seq::<char>::empty(),
    }
}

/// Decodes an optional instant from the broker's wire shapes.  Null and the
/// sentinel string `0` yield the absent value; an accepted RFC 3339 string
/// yields its UTC instant; everything else — a number, another JSON type, or
/// a string that does not read as an in-range RFC 3339 date-time — is
/// rejected with the reason and offending value pinned by `ts_error_reason`
/// and `ts_error_value`.
pub fn decode(v: &JsonValue) -> (r: Result<Option<Timestamp>, DecodeError>)
    ensures
        ts_json_accepted(*v) ==> r == Ok::<Option<Timestamp>, DecodeError>(ts_json_decoded(*v)),
        !ts_json_accepted(*v) ==> (r matches Err(e) && e.reason_view() == ts_error_reason(*v)
            && e.value_view() == ts_error_value(*v)),
        r matches Ok(Some(t)) ==> t.valid(),
{
    match v {
        JsonValue::Null => Ok(None),
        JsonValue::Text(s) => {
            if s.as_str().unicode_len() == 1 && s.as_str().get_char(0) == '0' {
                proof {
                    assert(s@ =~= seq!['0']);
                }
                Ok(None)
            } else {
                proof {
                    assert(!is_absent_sentinel(s@));
                }
                match parse_timestamp(s.as_str()) {
                    Some(t) => Ok(Some(t)),
                    None => Err(DecodeError::InvalidFormat {
                        reason: String::from_str("invalid RFC3339 timestamp"),
                        value: s.clone(),
                    }),
                }
            }
        },
        JsonValue::NumInt(n) => Err(DecodeError::InvalidFormat {
            reason: String::from_str("unsupported type for timestamp field"),
            value: i64_to_string(*n),
        }),
        _ => Err(DecodeError::InvalidFormat {
            reason: String::from_str("unsupported type for timestamp field"),
            value: String::new(),
        }),
    }
}

/// A timestamp from a date, a clock reading in seconds of that day, and a
/// sub-second part, executable form.
fn from_day_secs(year: u16, month: u8, day: u8, day_secs: u32, nanos: u32) -> (t: Timestamp)
    requires
        day_secs < 86400,
    ensures
        t == make_ts(year as int, month as int, day as int, day_secs as int, nanos as int),
        t.hour <= 23,
        t.minute <= 59,
        t.second <= 59,
{
    let t = Timestamp {
        year,
        month,
        day,
        hour: (day_secs / 3600) as u8,
        minute: ((day_secs / 60) % 60) as u8,
        second: (day_secs % 60) as u8,
        nanos,
    };
    proof {
        assert(day_secs / 3600 <= 23 && (day_secs / 60) % 60 <= 59 && day_secs % 60 <= 59)
            by (nonlinear_arith)
            requires
                day_secs < 86400,
        ;
    }
    t
}

/// Parses an RFC 3339 date-time string into the UTC instant it denotes.
/// `None` exactly when the codec does not accept the string.
fn parse_timestamp(s: &str) -> (r: Option<Timestamp>)
    ensures
        match r {
            Some(t) => ts_accepted(s@) && t == ts_utc(s@) && t.valid(),
            None => !ts_accepted(s@),
        },
{
    reveal_with_fuel(pow10, 10);
    let len = s.unicode_len();
    if len < 19 {
        return None;
    }
    let year = match read_digits(s, 0, 4) {
        Some(v) => v,
        None => {
            return None;
        },
    };
    if s.get_char(4) != '-' {
        return None;
    }
    let month = match read_digits(s, 5, 2) {
        Some(v) => v,
        None => {
            return None;
        },
    };
    if s.get_char(7) != '-' {
        return None;
    }
    let day = match read_digits(s, 8, 2) {
        Some(v) => v,
        None => {
            return None;
        },
    };
    let c10 = s.get_char(10);
    if !(c10 == 'T' || c10 == 't') {
        return None;
    }
    let hour = match read_digits(s, 11, 2) {
        Some(v) => v,
        None => {
            return None;
        },
    };
    if s.get_char(13) != ':' {
        return None;
    }
    let minute = match read_digits(s, 14, 2) {
        Some(v) => v,
        None => {
            return None;
        },
    };
    if s.get_char(16) != ':' {
        return None;
    }
    let second = match read_digits(s, 17, 2) {
        Some(v) => v,
        None => {
            return None;
        },
    };
    // the fractional-second part, if any
    let mut fl: usize = 0;
    let mut nanos: u32 = 0;
    if len > 19 && s.get_char(19) == '.' {
        let mut j: usize = 20;
        while j < len
            invariant
                20 <= j <= len == s@.len(),
                forall|k: int| 20 <= k < j ==> crate::digits::is_digit(#[trigger] s@[k]),
            ensures
                20 <= j <= len,
                forall|k: int| 20 <= k < j ==> crate::digits::is_digit(#[trigger] s@[k]),
                j == len || !crate::digits::is_digit(s@[j as int]),
            decreases len - j,
        {
            let c = s.get_char(j);
            let cu = c as u32;
            if cu < 48 || cu > 57 {
                break ;
            }
            j = j + 1;
        }
        proof {
            crate::digits::lemma_digit_run_value(s@, 20, j as int);
        }
        fl = j - 20;
        if fl < 1 || fl > 9 {
            return None;
        }
        let fv = match read_digits(s, 20, fl) {
            Some(v) => v,
            None => {
                return None;
            },
        };
        let scale = pow10_u32(9 - fl);
        proof {
            crate::digits::lemma_pow10_add(fl as nat, (9 - fl) as nat);
            assert(fv * scale < 1_000_000_000) by (nonlinear_arith)
                requires
                    (fv as int) < pow10(fl as nat),
                    scale as int == pow10((9 - fl) as nat),
                    pow10(fl as nat) * pow10((9 - fl) as nat) == 1_000_000_000,
                    scale >= 1,
            ;
        }
        nanos = fv * scale;
    }
    let p: usize = if fl > 0 {
        20 + fl
    } else {
        19
    };
    proof {
        assert(tz_pos(s@) == p as int);
        assert(ts_nanos(s@) == nanos as int);
    }
    if p >= len {
        return None;
    }
    let tzc = s.get_char(p);
    let offset_min: i32;
    if tzc == 'Z' || tzc == 'z' {
        if len - p != 1 {
            return None;
        }
        offset_min = 0;
    } else if tzc == '+' || tzc == '-' {
        if len - p != 6 {
            return None;
        }
        let hh = match read_digits(s, p + 1, 2) {
            Some(v) => v,
            None => {
                return None;
            },
        };
        if s.get_char(p + 3) != ':' {
            return None;
        }
        let mm = match read_digits(s, p + 4, 2) {
            Some(v) => v,
            None => {
                return None;
            },
        };
        if hh > 23 || mm > 59 {
            return None;
        }
        let abs = (hh * 60 + mm) as i32;
        offset_min = if tzc == '-' {
            -abs
        } else {
            abs
        };
    } else {
        return None;
    }
    proof {
        assert(ts_shape_ok(s@));
        assert(offset_min as int == ts_offset_min(s@));
    }
    // field ranges
    if month < 1 || month > 12 {
        return None;
    }
    let y16: u16 = year as u16;
    let mo8: u8 = month as u8;
    let d8: u8 = day as u8;
    let ml = month_length(y16, mo8);
    if day < 1 || d8 > ml {
        return None;
    }
    if hour > 23 || minute > 59 || second > 59 {
        return None;
    }
    proof {
        assert(ts_fields_ok(s@));
    }
    // shift the clock reading back by the offset, borrowing or carrying at
    // most one civil day
    let raw: u32 = hour * 3600 + minute * 60 + second;
    let ds: i32 = raw as i32 - offset_min * 60;
    if ds < 0 {
        if y16 == 0 && mo8 == 1 && d8 == 1 {
            return None;
        }
        let (py, pm, pd) = step_back(y16, mo8, d8);
        Some(from_day_secs(py, pm, pd, (ds + 86400) as u32, nanos))
    } else if ds >= 86400 {
        if y16 == 9999 && mo8 == 12 && d8 == 31 {
            return None;
        }
        let (ny, nm, nd) = step_forward(y16, mo8, d8);
        Some(from_day_secs(ny, nm, nd, (ds - 86400) as u32, nanos))
    } else {
        Some(from_day_secs(y16, mo8, d8, ds as u32, nanos))
    }
}

/// The sub-second part of a well-shaped string is below one second.
proof fn lemma_ts_nanos_bound(s: Seq<char>)
    requires
        ts_shape_ok(s),
    ensures
        0 <= ts_nanos(s) < 1_000_000_000,
{
    if frac_present(s) {
        let fl = frac_len(s);
        crate::digits::lemma_digit_run_digits(s, 20);
        assert(all_digits(s.subrange(20, 20 + fl)));
        crate::digits::lemma_digits_val_bounds(s.subrange(20, 20 + fl));
        crate::digits::lemma_pow10_add(fl as nat, (9 - fl) as nat);
        crate::digits::lemma_pow10_pos((9 - fl) as nat);
        let v = digits_val(s.subrange(20, 20 + fl));
        reveal_with_fuel(pow10, 10);
        assert(0 <= v * pow10((9 - fl) as nat) < 1_000_000_000) by (nonlinear_arith)
            requires
                0 <= v < pow10(fl as nat),
                pow10(fl as nat) * pow10((9 - fl) as nat) == 1_000_000_000,
                pow10((9 - fl) as nat) >= 1,
        ;
    }
}

/// A day-seconds value below one day splits into clock fields that
/// recompose to it.
proof fn lemma_day_secs_fields(v: int)
    requires
        0 <= v < 86400,
    ensures
        0 <= v / 3600 <= 23,
        0 <= (v / 60) % 60 <= 59,
        0 <= v % 60 <= 59,
        (v / 3600) * 3600 + ((v / 60) % 60) * 60 + v % 60 == v,
{
    let a = v / 60;
    let r = v % 60;
    let b = a / 60;
    let q = a % 60;
    vstd::arithmetic::div_mod::lemma_fundamental_div_mod(v, 60);
    vstd::arithmetic::div_mod::lemma_fundamental_div_mod(a, 60);
    assert(v == b * 3600 + (q * 60 + r)) by (nonlinear_arith)
        requires
            v == 60 * a + r,
            a == 60 * b + q,
    ;
    vstd::arithmetic::div_mod::lemma_fundamental_div_mod_converse(v, 3600, b, q * 60 + r);
}

/// Offset law: the instant an accepted string denotes is its civil clock
/// reading shifted back by exactly its offset, and the sub-second part is
/// carried over unchanged.  In particular the decoded timestamp is valid.
pub proof fn lemma_ts_utc_offset(s: Seq<char>)
    requires
        ts_accepted(s),
    ensures
        ts_utc(s).valid(),
        ts_utc(s).civil_secs() == crate::calendar::day_number(ts_year(s), ts_month(s), ts_day(s))
            * 86400 + ts_raw_secs_of_day(s) - ts_offset_min(s) * 60,
        ts_utc(s).nanos as int == ts_nanos(s),
{
    reveal_with_fuel(pow10, 5);
    let y = ts_year(s);
    let m = ts_month(s);
    let d = ts_day(s);
    let off = ts_offset_min(s);
    let raw = ts_raw_secs_of_day(s);
    let ds = raw - off * 60;
    lemma_ts_nanos_bound(s);
    crate::digits::lemma_digits_val_bounds(s.subrange(0, 4));
    crate::digits::lemma_digits_val_bounds(s.subrange(11, 13));
    crate::digits::lemma_digits_val_bounds(s.subrange(14, 16));
    crate::digits::lemma_digits_val_bounds(s.subrange(17, 19));
    assert(0 <= y <= 9999);
    assert(0 <= raw <= 86399);
    let p = tz_pos(s);
    if tz_zulu(s, p) {
        assert(off == 0);
    } else {
        crate::digits::lemma_digits_val_bounds(s.subrange(p + 1, p + 3));
        crate::digits::lemma_digits_val_bounds(s.subrange(p + 4, p + 6));
        assert(-1439 <= off <= 1439);
    }
    assert(valid_date(y, m, d));
    if ds < 0 {
        let (py, pm, pd) = prev_date(y, m, d);
        crate::calendar::lemma_prev_date_day_number(y, m, d);
        assert(py >= 0);
        lemma_day_secs_fields(ds + 86400);
    } else if ds >= 86400 {
        let (ny, nm, nd) = next_date(y, m, d);
        crate::calendar::lemma_next_date_day_number(y, m, d);
        assert(ny <= 9999);
        lemma_day_secs_fields(ds - 86400);
    } else {
        lemma_day_secs_fields(ds);
    }
}

/// The rendering of a valid instant is accepted and parses back to exactly
/// that instant.
pub proof fn lemma_ts_render_reads_back(t: Timestamp)
    requires
        t.valid(),
    ensures
        ts_accepted(ts_render(t)),
        ts_utc(ts_render(t)) == t,
        ts_render(t).len() >= 20,
{
    reveal_with_fuel(pow10, 10);
    let s = ts_render(t);
    let y = t.year as int;
    let mo = t.month as int;
    let d = t.day as int;
    let h = t.hour as int;
    let mi = t.minute as int;
    let sec = t.second as int;
    let na = t.nanos as int;
    crate::digits::lemma_padded_digits(y, 4);
    crate::digits::lemma_padded_digits(mo, 2);
    crate::digits::lemma_padded_digits(d, 2);
    crate::digits::lemma_padded_digits(h, 2);
    crate::digits::lemma_padded_digits(mi, 2);
    crate::digits::lemma_padded_digits(sec, 2);
    if t.nanos != 0 {
        crate::digits::lemma_padded_digits(na, 9);
    }
    assert(s.subrange(0, 4) =~= padded_digits(y, 4));
    assert(s[4] == '-');
    assert(s.subrange(5, 7) =~= padded_digits(mo, 2));
    assert(s[7] == '-');
    assert(s.subrange(8, 10) =~= padded_digits(d, 2));
    assert(s[10] == 'T');
    assert(s.subrange(11, 13) =~= padded_digits(h, 2));
    assert(s[13] == ':');
    assert(s.subrange(14, 16) =~= padded_digits(mi, 2));
    assert(s[16] == ':');
    assert(s.subrange(17, 19) =~= padded_digits(sec, 2));
    assert(ts_head_ok(s));
    assert(ts_year(s) == y && ts_month(s) == mo && ts_day(s) == d);
    assert(ts_hour(s) == h && ts_minute(s) == mi && ts_second(s) == sec);
    if t.nanos == 0 {
        assert(s.len() == 20);
        assert(s[19] == 'Z');
        assert(!frac_present(s));
        assert(tz_zulu(s, 19));
        assert(ts_nanos(s) == na);
    } else {
        assert(s.len() == 30);
        assert(s[19] == '.');
        assert(s.subrange(20, 29) =~= padded_digits(na, 9));
        assert forall|k: int| 20 <= k < 29 implies crate::digits::is_digit(#[trigger] s[k]) by {
            assert(s[k] == padded_digits(na, 9)[k - 20]);
        }
        assert(!crate::digits::is_digit(s[29]));
        crate::digits::lemma_digit_run_value(s, 20, 29);
        assert(frac_len(s) == 9);
        assert(tz_zulu(s, 29));
        assert(ts_nanos(s) == digits_val(padded_digits(na, 9)) * pow10(0));
        assert(ts_nanos(s) == na);
    }
    assert(ts_shape_ok(s));
    assert(ts_fields_ok(s));
    assert(ts_offset_min(s) == 0);
    let ds = ts_raw_secs_of_day(s);
    assert(0 <= ds < 86400);
    assert(ts_in_range(s));
    assert(ds / 3600 == h && (ds / 60) % 60 == mi && ds % 60 == sec) by (nonlinear_arith)
        requires
            0 <= h <= 23,
            0 <= mi <= 59,
            0 <= sec <= 59,
            ds == h * 3600 + mi * 60 + sec,
    ;
    assert(ts_utc(s) == t);
}

/// Round-trip law: decoding whatever `encode` produced for a present, valid
/// instant yields that instant back, sub-second precision included; the
/// rendering is never mistaken for the absence sentinel.
pub proof fn lemma_ts_round_trip(t: Timestamp, j: JsonValue)
    requires
        t.valid(),
        ts_encoding_ok(Some(t), j),
    ensures
        ts_json_accepted(j),
        ts_json_decoded(j) == Some(t),
{
    lemma_ts_render_reads_back(t);
    assert(!is_absent_sentinel(ts_render(t)));
}

/// Absence law: encoding the absent value gives JSON null, and decoding that
/// yields the absent value again.
pub proof fn lemma_ts_absence(j: JsonValue)
    requires
        ts_encoding_ok(None, j),
    ensures
        j is Null,
        ts_json_accepted(j),
        ts_json_decoded(j) is None,
{
}

} // verus!
