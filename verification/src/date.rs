//! Calendar dates as plain year, month and day values, with the validity
//! rule of the proleptic Gregorian calendar, and the full English month
//! names used in the record text form.

use vstd::prelude::*;
use vstd::arithmetic::div_mod::lemma_mod_multiples_vanish;
use crate::text::is_space;

verus! {

/// A Gregorian calendar day. A date is meaningful only when `wf()` holds;
/// every constructor of this library establishes it.
#[derive(Clone, Copy, Debug, PartialEq, Eq, Structural)]
pub struct Date {
    pub year: i32,
    pub month: u8,
    pub day: u8,
}

/// The Gregorian leap-year rule.
pub open spec fn is_leap_year(y: int) -> bool {
    y % 4 == 0 && (y % 100 != 0 || y % 400 == 0)
}

/// How many days month `m` of year `y` has.
pub open spec fn days_in_month(y: int, m: int) -> int {
    if m == 2 {
        if is_leap_year(y) {
            29
        } else {
            28
        }
    } else if m == 4 || m == 6 || m == 9 || m == 11 {
        30
    } else {
        31
    }
}

/// Whether (`y`, `m`, `d`) names a real calendar day: the year within the
/// supported range, the month within the year, the day within the month.
pub open spec fn valid_date(y: int, m: int, d: int) -> bool {
    &&& -9999 <= y <= 9999
    &&& 1 <= m <= 12
    &&& 1 <= d <= days_in_month(y, m)
}

fn leap_year_exec(year: i32) -> (b: bool)
    requires
        -9999 <= year <= 9999,
    ensures
        b == is_leap_year(year as int),
{
    let yy: u32 = (year + 10000) as u32;
    proof {
        lemma_mod_multiples_vanish(2500, year as int, 4);
        lemma_mod_multiples_vanish(100, year as int, 100);
        lemma_mod_multiples_vanish(25, year as int, 400);
    }
    yy % 4 == 0 && (yy % 100 != 0 || yy % 400 == 0)
}

fn days_in_month_exec(year: i32, month: u8) -> (d: u8)
    requires
        -9999 <= year <= 9999,
        1 <= month <= 12,
    ensures
        d as int == days_in_month(year as int, month as int),
{
    if month == 2 {
        if leap_year_exec(year) {
            29
        } else {
            28
        }
    } else if month == 4 || month == 6 || month == 9 || month == 11 {
        30
    } else {
        31
    }
}

impl Date {
    /// The validity invariant: this value names a real calendar day.
    pub open spec fn wf(self) -> bool {
        valid_date(self.year as int, self.month as int, self.day as int)
    }

    /// Builds the date (`year`, `month`, `day`), or nothing when that is not
    /// a real calendar day.
    pub fn from_calendar_date(year: i32, month: u8, day: u8) -> (r: Option<Date>)
        ensures
            match r {
                Some(d) => valid_date(year as int, month as int, day as int) && d == (Date {
                    year,
                    month,
                    day,
                }),
                None => !valid_date(year as int, month as int, day as int),
            },
    {
        if year < -9999 || year > 9999 {
            return None;
        }
        if month < 1 || month > 12 {
            return None;
        }
        let dim = days_in_month_exec(year, month);
        if day < 1 || day > dim {
            return None;
        }
        Some(Date { year, month, day })
    }
}

/// The full English name of month `m` of the year, empty outside 1 to 12.
pub open spec fn month_name(m: int) -> Seq<char> {
    if m == 1 {
        seq!['J', 'a', 'n', 'u', 'a', 'r', 'y']
    } else if m == 2 {
        seq!['F', 'e', 'b', 'r', 'u', 'a', 'r', 'y']
    } else if m == 3 {
        seq!['M', 'a', 'r', 'c', 'h']
    } else if m == 4 {
        seq!['A', 'p', 'r', 'i', 'l']
    } else if m == 5 {
        seq!['M', 'a', 'y']
    } else if m == 6 {
        seq!['J', 'u', 'n', 'e']
    } else if m == 7 {
        seq!['J', 'u', 'l', 'y']
    } else if m == 8 {
        seq!['A', 'u', 'g', 'u', 's', 't']
    } else if m == 9 {
        seq!['S', 'e', 'p', 't', 'e', 'm', 'b', 'e', 'r']
    } else if m == 10 {
        seq!['O', 'c', 't', 'o', 'b', 'e', 'r']
    } else if m == 11 {
        seq!['N', 'o', 'v', 'e', 'm', 'b', 'e', 'r']
    } else if m == 12 {
        seq!['D', 'e', 'c', 'e', 'm', 'b', 'e', 'r']
    } else {
        Seq::empty()
    }
}

/// Which month a name denotes: the number whose full English name, with its
/// exact capitalisation, is `s`; nothing for any other string.
pub open spec fn month_of_name(s: Seq<char>) -> Option<u8> {
    if s == month_name(1) {
        Some(1u8)
    } else if s == month_name(2) {
        Some(2u8)
    } else if s == month_name(3) {
        Some(3u8)
    } else if s == month_name(4) {
        Some(4u8)
    } else if s == month_name(5) {
        Some(5u8)
    } else if s == month_name(6) {
        Some(6u8)
    } else if s == month_name(7) {
        Some(7u8)
    } else if s == month_name(8) {
        Some(8u8)
    } else if s == month_name(9) {
        Some(9u8)
    } else if s == month_name(10) {
        Some(10u8)
    } else if s == month_name(11) {
        Some(11u8)
    } else if s == month_name(12) {
        Some(12u8)
    } else {
        None
    }
}

/// Looking a month's own name up gives that month back.
pub proof fn lemma_month_of_own_name(m: int)
    requires
        1 <= m <= 12,
    ensures
        month_of_name(month_name(m)) == Some(m as u8),
{
    assert(month_name(1)[0] == 'J');
    assert(month_name(2)[0] == 'F');
    assert(month_name(3)[0] == 'M');
    assert(month_name(4)[0] == 'A');
    assert(month_name(5)[0] == 'M');
    assert(month_name(6)[0] == 'J');
    assert(month_name(7)[0] == 'J');
    assert(month_name(8)[0] == 'A');
    assert(month_name(9)[0] == 'S');
    assert(month_name(10)[0] == 'O');
    assert(month_name(11)[0] == 'N');
    assert(month_name(12)[0] == 'D');
    assert(month_name(6)[2] == 'n');
    assert(month_name(7)[2] == 'l');
}

/// Month names are nonempty, hold no separator, and no whitespace at
/// either end.
pub proof fn lemma_month_name_clean(m: int)
    requires
        1 <= m <= 12,
    ensures
        month_name(m).len() > 0,
        !is_space(month_name(m)[0]),
        !is_space(month_name(m).last()),
        forall|k: int| 0 <= k < month_name(m).len() ==> month_name(m)[k] != ',',
{
    assert forall|k: int| 0 <= k < month_name(m).len() implies month_name(m)[k] != ',' by {
        assert(month_name(m)[k] != ',');
    }
}

fn vec_chars_eq(a: &Vec<char>, b: &Vec<char>) -> (r: bool)
    ensures
        r == (a@ == b@),
{
    if a.len() != b.len() {
        return false;
    }
    let mut i: usize = 0;
    while i < a.len()
        invariant
            i <= a@.len(),
            a@.len() == b@.len(),
            forall|k: int| 0 <= k < i ==> a@[k] == b@[k],
        decreases a@.len() - i,
    {
        if a[i] != b[i] {
            return false;
        }
        i += 1;
    }
    proof {
        assert(a@ =~= b@);
    }
    true
}

/// The characters of month `m`'s full English name.
pub fn month_chars(m: u8) -> (r: Vec<char>)
    requires
        1 <= m <= 12,
    ensures
        r@ == month_name(m as int),
{
    let s: &str = if m == 1 {
        "January"
    } else if m == 2 {
        "February"
    } else if m == 3 {
        "March"
    } else if m == 4 {
        "April"
    } else if m == 5 {
        "May"
    } else if m == 6 {
        "June"
    } else if m == 7 {
        "July"
    } else if m == 8 {
        "August"
    } else if m == 9 {
        "September"
    } else if m == 10 {
        "October"
    } else if m == 11 {
        "November"
    } else {
        "December"
    };
    proof {
        reveal_strlit("January");
        reveal_strlit("February");
        reveal_strlit("March");
        reveal_strlit("April");
        reveal_strlit("May");
        reveal_strlit("June");
        reveal_strlit("July");
        reveal_strlit("August");
        reveal_strlit("September");
        reveal_strlit("October");
        reveal_strlit("November");
        reveal_strlit("December");
        assert(s@ =~= month_name(m as int));
    }
    crate::text::str_chars(s)
}

/// The month whose full English name is `v`, if any.
pub fn month_from_name(v: &Vec<char>) -> (r: Option<u8>)
    ensures
        r == month_of_name(v@),
{
    let mut m: u8 = 1;
    while m <= 12
        invariant
            1 <= m <= 13,
            forall|k: int| 1 <= k < m ==> v@ != month_name(k),
        decreases 13 - m,
    {
        let name = month_chars(m);
        if vec_chars_eq(v, &name) {
            return Some(m);
        }
        m += 1;
    }
    None
}

} // verus!
