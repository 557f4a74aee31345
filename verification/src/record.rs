//! The record entity and its codec: one logged activity day (identifier,
//! calendar date, minute count), its canonical comma-delimited text line,
//! and the parsing of such a line back into a record with field-level
//! validation.

use vstd::prelude::*;
use crate::date::{
    Date, valid_date, month_name, month_of_name, month_chars, month_from_name,
    lemma_month_of_own_name, lemma_month_name_clean,
};
use crate::duration::{hours_of, leftover_of, parse_minutes};
use crate::num::{
    int_to_dec, dec_digits, parse_int_spec, is_digit, lemma_int_to_dec_clean, lemma_dec_digits,
    lemma_digit_not_special, lemma_parse_of_dec, parse_i32_chars, parse_i64_chars, parse_u8_chars,
    fmt_i32, fmt_i64, fmt_u64,
};
use crate::text::{
    trim_spec, split_at_seps, split_char, trim_chars, str_chars, chars_string, append_chars,
    is_space, lemma_trim_clean, lemma_split_no_sep, lemma_split_prefix,
};

verus! {

/// One logged activity day. The `date` of every record this library hands
/// out is a valid calendar date; `wf()` states that invariant.
#[derive(Debug, PartialEq, Eq, Structural)]
pub struct PreachingDay {
    pub id: i32,
    pub date: Date,
    pub minutes: i64,
}

/// Why a text line failed to decode: one case per validation step, reported
/// in the order the steps run, first failure wins.
#[derive(Clone, Copy, Debug, PartialEq, Eq, Structural)]
pub enum DecodeError {
    /// The line does not hold exactly five comma-separated fields.
    FieldCountMismatch,
    /// The first field is not a signed 32-bit integer.
    IdParseError,
    /// The second field is not a signed 32-bit integer.
    YearParseError,
    /// The third field is not a full English month name.
    MonthParseError,
    /// The fourth field is not an unsigned 8-bit integer.
    DayParseError,
    /// The fifth field is not a signed 64-bit integer.
    MinutesParseError,
    /// The fields parsed but do not name a real calendar day.
    InvalidDate,
}

/// The canonical text line of a record:
/// `id,year,month-name,day,minutes`, each number in plain decimal.
pub open spec fn encoded(r: PreachingDay) -> Seq<char> {
    int_to_dec(r.id as int) + seq![','] + int_to_dec(r.date.year as int) + seq![','] + month_name(
        r.date.month as int,
    ) + seq![','] + dec_digits(r.date.day as nat) + seq![','] + int_to_dec(r.minutes as int)
}

/// What decoding a line yields: the line is split on commas, every field is
/// trimmed of surrounding whitespace, and the five fields are read in order
/// as id, year, month name, day and minutes; the first failing step names
/// the error, and a syntactically sound line still fails when its fields do
/// not name a real calendar day.
pub open spec fn decoded(s: Seq<char>) -> Result<PreachingDay, DecodeError> {
    let fields = split_at_seps(s, ',').map_values(|f: Seq<char>| trim_spec(f));
    if fields.len() != 5 {
        Err(DecodeError::FieldCountMismatch)
    } else if parse_int_spec(fields[0], true, i32::MIN as int, i32::MAX as int) is None {
        Err(DecodeError::IdParseError)
    } else if parse_int_spec(fields[1], true, i32::MIN as int, i32::MAX as int) is None {
        Err(DecodeError::YearParseError)
    } else if month_of_name(fields[2]) is None {
        Err(DecodeError::MonthParseError)
    } else if parse_int_spec(fields[3], false, 0, u8::MAX as int) is None {
        Err(DecodeError::DayParseError)
    } else if parse_int_spec(fields[4], true, i64::MIN as int, i64::MAX as int) is None {
        Err(DecodeError::MinutesParseError)
    } else {
        let id = parse_int_spec(fields[0], true, i32::MIN as int, i32::MAX as int)->0;
        let year = parse_int_spec(fields[1], true, i32::MIN as int, i32::MAX as int)->0;
        let month = month_of_name(fields[2])->0;
        let day = parse_int_spec(fields[3], false, 0, u8::MAX as int)->0;
        let minutes = parse_int_spec(fields[4], true, i64::MIN as int, i64::MAX as int)->0;
        if !valid_date(year, month as int, day) {
            Err(DecodeError::InvalidDate)
        } else {
            Ok(
                PreachingDay {
                    id: id as i32,
                    date: Date { year: year as i32, month, day: day as u8 },
                    minutes: minutes as i64,
                },
            )
        }
    }
}

/// The human-readable line of a record:
/// `day {weekday} {day} of {month}, hours: {hours}:{minutes}`, the duration
/// not zero-padded.
pub open spec fn rendered(r: PreachingDay) -> Seq<char> {
    seq!['d', 'a', 'y', ' '] + weekday_name_of(
        r.date.year as int,
        r.date.month as int,
        r.date.day as int,
    ) + seq![' '] + dec_digits(r.date.day as nat) + seq![' ', 'o', 'f', ' '] + month_name(
        r.date.month as int,
    ) + seq![',', ' ', 'h', 'o', 'u', 'r', 's', ':', ' '] + int_to_dec(
        hours_of(r.minutes as int),
    ) + seq![':'] + int_to_dec(leftover_of(r.minutes as int))
}

/// The full English weekday name of a calendar day; a function of year,
/// month and day alone.
pub uninterp spec fn weekday_name_of(y: int, m: int, d: int) -> Seq<char>;

/// Relies on rand::random: a fresh identifier drawn from the process-wide
/// generator. Nothing is promised of the value.
#[verifier::external_body]
fn fresh_id() -> i32 {
    rand::random()
}

/// Relies on time::Date::weekday and the Display of time::Weekday: the full
/// English weekday name of a calendar day, a function of year, month and day
/// alone. time::Month::try_from and time::Date::from_calendar_date only
/// convert the arguments, which the caller has validated, so neither fails.
#[verifier::external_body]
fn weekday_name(year: i32, month: u8, day: u8) -> (r: String)
    requires
        valid_date(year as int, month as int, day as int),
    ensures
        r@ == weekday_name_of(year as int, month as int, day as int),
{
    let m = time::Month::try_from(month).unwrap();
    let date = time::Date::from_calendar_date(year, m, day).unwrap();
    format!("{}", date.weekday())
}

impl PreachingDay {
    /// The record's invariant: its date names a real calendar day.
    pub open spec fn wf(self) -> bool {
        self.date.wf()
    }

    /// A fresh record for `date` and `minutes`, under a newly drawn
    /// identifier. The date is the caller's to validate.
    pub fn new(date: Date, minutes: i64) -> (r: PreachingDay)
        requires
            date.wf(),
        ensures
            r.date == date,
            r.minutes == minutes,
            r.wf(),
    {
        PreachingDay { id: fresh_id(), date, minutes }
    }

    /// The record's identifier.
    pub fn id(&self) -> (r: i32)
        ensures
            r == self.id,
    {
        self.id
    }

    /// The canonical storage line of this record.
    pub fn to_str(&self) -> (r: String)
        requires
            self.wf(),
        ensures
            r@ == encoded(*self),
    {
        let mut out: Vec<char> = Vec::new();
        let idc = fmt_i32(self.id);
        append_chars(&mut out, &idc);
        out.push(',');
        let yc = fmt_i32(self.date.year);
        append_chars(&mut out, &yc);
        out.push(',');
        let mc = month_chars(self.date.month);
        append_chars(&mut out, &mc);
        out.push(',');
        let dc = fmt_u64(self.date.day as u64);
        append_chars(&mut out, &dc);
        out.push(',');
        let minc = fmt_i64(self.minutes);
        append_chars(&mut out, &minc);
        assert(out@ =~= encoded(*self));
        chars_string(&out)
    }

    /// Decodes one storage line into a record.
    pub fn from_string(s: &str) -> (r: Result<PreachingDay, DecodeError>)
        ensures
            r == decoded(s@),
            r matches Ok(rec) ==> rec.wf(),
    {
        let chars = str_chars(s);
        decode_chars(&chars)
    }

    /// The human-readable line of this record.
    pub fn render_display(&self) -> (r: String)
        requires
            self.wf(),
        ensures
            r@ == rendered(*self),
    {
        let mut out: Vec<char> = Vec::new();
        out.push('d');
        out.push('a');
        out.push('y');
        out.push(' ');
        let wd = weekday_name(self.date.year, self.date.month, self.date.day);
        let wdc = str_chars(wd.as_str());
        append_chars(&mut out, &wdc);
        out.push(' ');
        let dc = fmt_u64(self.date.day as u64);
        append_chars(&mut out, &dc);
        out.push(' ');
        out.push('o');
        out.push('f');
        out.push(' ');
        let mc = month_chars(self.date.month);
        append_chars(&mut out, &mc);
        out.push(',');
        out.push(' ');
        out.push('h');
        out.push('o');
        out.push('u');
        out.push('r');
        out.push('s');
        out.push(':');
        out.push(' ');
        let dur = parse_minutes(self.minutes);
        let hc = fmt_i64(dur.0);
        append_chars(&mut out, &hc);
        out.push(':');
        let lc = fmt_i64(dur.1);
        append_chars(&mut out, &lc);
        assert(out@ =~= rendered(*self));
        chars_string(&out)
    }
}

/// Whitespace tolerance: two lines with the same comma-separated fields,
/// up to the whitespace surrounding each field, decode to the same result.
pub proof fn lemma_whitespace_tolerance(a: Seq<char>, b: Seq<char>)
    requires
        split_at_seps(a, ',').len() == split_at_seps(b, ',').len(),
        forall|k: int|
            0 <= k < split_at_seps(a, ',').len() ==> #[trigger] trim_spec(
                split_at_seps(a, ',')[k],
            ) == trim_spec(split_at_seps(b, ',')[k]),
    ensures
        decoded(a) == decoded(b),
{
    let fa = split_at_seps(a, ',').map_values(|f: Seq<char>| trim_spec(f));
    let fb = split_at_seps(b, ',').map_values(|f: Seq<char>| trim_spec(f));
    assert(fa =~= fb);
}

/// Round trip: decoding a record's own canonical line gives the record
/// back, its identifier, date and minute count preserved exactly.
pub proof fn lemma_round_trip(r: PreachingDay)
    requires
        r.wf(),
    ensures
        decoded(encoded(r)) == Ok::<PreachingDay, DecodeError>(r),
{
    let f0 = int_to_dec(r.id as int);
    let f1 = int_to_dec(r.date.year as int);
    let f2 = month_name(r.date.month as int);
    let f3 = dec_digits(r.date.day as nat);
    let f4 = int_to_dec(r.minutes as int);
    let c = seq![','];
    let s = encoded(r);
    lemma_int_to_dec_clean(r.id as int);
    lemma_int_to_dec_clean(r.date.year as int);
    lemma_int_to_dec_clean(r.minutes as int);
    lemma_dec_digits(r.date.day as nat);
    lemma_month_name_clean(r.date.month as int);
    assert forall|k: int| 0 <= k < f0.len() implies f0[k] != ',' by {
        if is_digit(f0[k]) {
            lemma_digit_not_special(f0[k]);
        }
    }
    assert forall|k: int| 0 <= k < f1.len() implies f1[k] != ',' by {
        if is_digit(f1[k]) {
            lemma_digit_not_special(f1[k]);
        }
    }
    assert forall|k: int| 0 <= k < f3.len() implies f3[k] != ',' by {
        lemma_digit_not_special(f3[k]);
    }
    assert forall|k: int| 0 <= k < f4.len() implies f4[k] != ',' by {
        if is_digit(f4[k]) {
            lemma_digit_not_special(f4[k]);
        }
    }
    let s1 = f1 + c + f2 + c + f3 + c + f4;
    let s2 = f2 + c + f3 + c + f4;
    let s3 = f3 + c + f4;
    assert(s =~= f0 + c + s1);
    lemma_split_prefix(f0, s1, ',');
    assert(s1 =~= f1 + c + s2);
    lemma_split_prefix(f1, s2, ',');
    assert(s2 =~= f2 + c + s3);
    lemma_split_prefix(f2, s3, ',');
    assert(s3 =~= f3 + c + f4);
    lemma_split_prefix(f3, f4, ',');
    lemma_split_no_sep(f4, ',');
    assert(split_at_seps(s, ',') =~= seq![f0, f1, f2, f3, f4]);
    // every field is already free of surrounding whitespace
    assert(!is_space(f0[0]) && !is_space(f0.last())) by {
        lemma_digit_not_special(f0.last());
        if is_digit(f0[0]) {
            lemma_digit_not_special(f0[0]);
        }
    }
    lemma_trim_clean(f0);
    assert(!is_space(f1[0]) && !is_space(f1.last())) by {
        lemma_digit_not_special(f1.last());
        if is_digit(f1[0]) {
            lemma_digit_not_special(f1[0]);
        }
    }
    lemma_trim_clean(f1);
    lemma_trim_clean(f2);
    assert(!is_space(f3[0]) && !is_space(f3.last())) by {
        lemma_digit_not_special(f3[0]);
        lemma_digit_not_special(f3.last());
    }
    lemma_trim_clean(f3);
    assert(!is_space(f4[0]) && !is_space(f4.last())) by {
        lemma_digit_not_special(f4.last());
        if is_digit(f4[0]) {
            lemma_digit_not_special(f4[0]);
        }
    }
    lemma_trim_clean(f4);
    let fields = split_at_seps(s, ',').map_values(|f: Seq<char>| trim_spec(f));
    assert(fields =~= seq![f0, f1, f2, f3, f4]);
    lemma_parse_of_dec(r.id as int, true, i32::MIN as int, i32::MAX as int);
    lemma_parse_of_dec(r.date.year as int, true, i32::MIN as int, i32::MAX as int);
    lemma_month_of_own_name(r.date.month as int);
    assert(f3 == int_to_dec(r.date.day as int));
    lemma_parse_of_dec(r.date.day as int, false, 0, u8::MAX as int);
    lemma_parse_of_dec(r.minutes as int, true, i64::MIN as int, i64::MAX as int);
}

/// Decodes one storage line, given as its characters, into a record.
pub fn decode_chars(v: &Vec<char>) -> (r: Result<PreachingDay, DecodeError>)
    ensures
        r == decoded(v@),
        r matches Ok(rec) ==> rec.wf(),
{
    let ghost fspec = split_at_seps(v@, ',').map_values(|f: Seq<char>| trim_spec(f));
    let raw = split_char(v, ',');
    let mut fields: Vec<Vec<char>> = Vec::new();
    let mut i: usize = 0;
    assert(fields.deep_view() =~= fspec.take(0));
    while i < raw.len()
        invariant
            i <= raw@.len(),
            raw.deep_view() == split_at_seps(v@, ','),
            fspec == split_at_seps(v@, ',').map_values(|f: Seq<char>| trim_spec(f)),
            fields.deep_view() == fspec.take(i as int),
        decreases raw@.len() - i,
    {
        proof {
            assert(raw@[i as int].deep_view() =~= raw@[i as int]@);
            assert(fspec[i as int] == trim_spec(raw.deep_view()[i as int]));
        }
        let t = trim_chars(&raw[i]);
        let ghost old_fields = fields.deep_view();
        let ghost tv = t@;
        proof {
            assert(t.deep_view() =~= tv);
            assert(tv == fspec[i as int]);
        }
        fields.push(t);
        proof {
            assert(fields@.len() == old_fields.len() + 1);
            assert(old_fields.len() == i as int);
            assert(fields.deep_view().len() == i + 1);
            assert forall|k: int| 0 <= k < i implies fields.deep_view()[k] == fspec.take(
                i + 1,
            )[k] by {
                assert(fields.deep_view()[k] == fields@[k].deep_view());
                assert(old_fields[k] == fspec[k]);
            }
            assert(fields.deep_view()[i as int] == fspec.take(i + 1)[i as int]);
            assert(fields.deep_view() =~= fspec.take(i + 1));
        }
        i += 1;
    }
    assert(fspec.take(fspec.len() as int) =~= fspec);
    if fields.len() != 5 {
        return Err(DecodeError::FieldCountMismatch);
    }
    proof {
        assert(fields@[0].deep_view() =~= fields@[0]@);
        assert(fields@[1].deep_view() =~= fields@[1]@);
        assert(fields@[2].deep_view() =~= fields@[2]@);
        assert(fields@[3].deep_view() =~= fields@[3]@);
        assert(fields@[4].deep_view() =~= fields@[4]@);
    }
    let id = match parse_i32_chars(&fields[0]) {
        Some(x) => x,
        None => {
            return Err(DecodeError::IdParseError);
        },
    };
    let year = match parse_i32_chars(&fields[1]) {
        Some(x) => x,
        None => {
            return Err(DecodeError::YearParseError);
        },
    };
    let month = match month_from_name(&fields[2]) {
        Some(x) => x,
        None => {
            return Err(DecodeError::MonthParseError);
        },
    };
    let day = match parse_u8_chars(&fields[3]) {
        Some(x) => x,
        None => {
            return Err(DecodeError::DayParseError);
        },
    };
    let minutes = match parse_i64_chars(&fields[4]) {
        Some(x) => x,
        None => {
            return Err(DecodeError::MinutesParseError);
        },
    };
    match Date::from_calendar_date(year, month, day) {
        None => Err(DecodeError::InvalidDate),
        Some(date) => Ok(PreachingDay { id, date, minutes }),
    }
}

} // verus!
