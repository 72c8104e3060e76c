//! Expiration dates written as six decimal digits, `YYMMDD`: their month
//! labels and the number of days between two of them.
use vstd::prelude::*;

verus! {

/// `c` is one of the ten decimal digits.
pub open spec fn is_digit(c: char) -> bool {
    '0' <= c <= '9'
}

/// The number that the decimal digit `c` stands for.
pub open spec fn digit_value(c: char) -> int {
    c as int - '0' as int
}

/// The number written by the two digits of `s` that start at `at`.
pub open spec fn two_digits(s: Seq<char>, at: int) -> int {
    digit_value(s[at]) * 10 + digit_value(s[at + 1])
}

/// `s` consists of exactly six decimal digits.
pub open spec fn is_date_code(s: Seq<char>) -> bool {
    &&& s.len() == 6
    &&& is_digit(s[0])
    &&& is_digit(s[1])
    &&& is_digit(s[2])
    &&& is_digit(s[3])
    &&& is_digit(s[4])
    &&& is_digit(s[5])
}

/// The calendar year that a two-digit year stands for: `70` to `99` lie in
/// the twentieth century, `00` to `69` in the twenty-first.
pub open spec fn full_year(yy: int) -> int {
    if yy >= 70 {
        1900 + yy
    } else {
        2000 + yy
    }
}

/// Year, month and day as written in a date code. Nothing is implied about
/// whether such a day exists.
pub struct DateParts {
    pub year: i32,
    pub month: u32,
    pub day: u32,
}

/// The year, month and day that `s` writes, if `s` is a date code.
pub open spec fn date_parts_of(s: Seq<char>) -> Option<DateParts> {
    if is_date_code(s) {
        Some(
            DateParts {
                year: full_year(two_digits(s, 0)) as i32,
                month: two_digits(s, 2) as u32,
                day: two_digits(s, 4) as u32,
            },
        )
    } else {
        None
    }
}

/// `s` is a date code whose month is one of the twelve.
pub open spec fn has_month(s: Seq<char>) -> bool {
    is_date_code(s) && 1 <= two_digits(s, 2) <= 12
}

/// The three-letter name of month `m`, for `m` from 1 to 12.
pub open spec fn month_name(m: int) -> Seq<char> {
    if m == 1 {
        "JAN"@
    } else if m == 2 {
        "FEB"@
    } else if m == 3 {
        "MAR"@
    } else if m == 4 {
        "APR"@
    } else if m == 5 {
        "MAY"@
    } else if m == 6 {
        "JUN"@
    } else if m == 7 {
        "JUL"@
    } else if m == 8 {
        "AUG"@
    } else if m == 9 {
        "SEP"@
    } else if m == 10 {
        "OCT"@
    } else if m == 11 {
        "NOV"@
    } else {
        "DEC"@
    }
}

/// The month label of a date code: the month's name followed by the two
/// digits of the year. The digits of the day play no part.
pub open spec fn month_label(s: Seq<char>) -> Seq<char> {
    month_name(two_digits(s, 2)) + s.subrange(0, 2)
}

/// The month labels of `dates`, each once, in the order in which they first
/// occur.
pub open spec fn distinct_month_labels(dates: Seq<Seq<char>>) -> Seq<Seq<char>>
    decreases dates.len(),
{
    if dates.len() == 0 {
        Seq::empty()
    } else {
        let earlier = distinct_month_labels(dates.drop_last());
        let label = month_label(dates.last());
        if earlier.contains(label) {
            earlier
        } else {
            earlier.push(label)
        }
    }
}

/// Reads one decimal digit.
fn digit_at(s: &str, i: usize) -> (r: Option<u32>)
    requires
        i < s@.len(),
    ensures
        r is Some <==> is_digit(s@[i as int]),
        r is Some ==> r->0 == digit_value(s@[i as int]) && r->0 <= 9,
{
    let c = s.get_char(i);
    if '0' <= c && c <= '9' {
        Some(c as u32 - '0' as u32)
    } else {
        None
    }
}

/// Reads the two digits of `s` that start at `at`.
fn two_digits_at(s: &str, at: usize) -> (r: Option<u32>)
    requires
        at <= 4,
        at + 1 < s@.len(),
    ensures
        r is Some <==> is_digit(s@[at as int]) && is_digit(s@[at + 1]),
        r is Some ==> r->0 == two_digits(s@, at as int) && r->0 <= 99,
{
    match digit_at(s, at) {
        Some(tens) => match digit_at(s, at + 1) {
            Some(ones) => Some(tens * 10 + ones),
            None => None,
        },
        None => None,
    }
}

/// Reads a date code into year, month and day. Text that is not six decimal
/// digits is no date code.
pub fn parse_date_code(date: &str) -> (r: Option<DateParts>)
    ensures
        r == date_parts_of(date@),
{
    if date.unicode_len() != 6 {
        return None;
    }
    let yy: u32 = match two_digits_at(date, 0) {
        Some(v) => v,
        None => {
            return None;
        },
    };
    let month: u32 = match two_digits_at(date, 2) {
        Some(v) => v,
        None => {
            return None;
        },
    };
    let day: u32 = match two_digits_at(date, 4) {
        Some(v) => v,
        None => {
            return None;
        },
    };
    let year: i32 = if yy >= 70 {
        1900 + yy as i32
    } else {
        2000 + yy as i32
    };
    Some(DateParts { year, month, day })
}

/// Tests `has_month`.
pub fn is_month_code(date: &str) -> (r: bool)
    ensures
        r == has_month(date@),
{
    match parse_date_code(date) {
        Some(parts) => 1 <= parts.month && parts.month <= 12,
        None => false,
    }
}

/// The name of a month as text.
fn month_name_text(month: u32) -> (name: &'static str)
    requires
        1 <= month <= 12,
    ensures
        name@ == month_name(month as int),
{
    if month == 1 {
        "JAN"
    } else if month == 2 {
        "FEB"
    } else if month == 3 {
        "MAR"
    } else if month == 4 {
        "APR"
    } else if month == 5 {
        "MAY"
    } else if month == 6 {
        "JUN"
    } else if month == 7 {
        "JUL"
    } else if month == 8 {
        "AUG"
    } else if month == 9 {
        "SEP"
    } else if month == 10 {
        "OCT"
    } else if month == 11 {
        "NOV"
    } else {
        "DEC"
    }
}

/// The month label of an expiration date: `"221231"` gives `"DEC22"`.
pub fn convert_date(date: &str) -> (label: String)
    requires
        has_month(date@),
    ensures
        label@ == month_label(date@),
{
    let month: u32 = match two_digits_at(date, 2) {
        Some(v) => v,
        None => 1,
    };
    let mut label = month_name_text(month).to_owned();
    label.append(date.substring_char(0, 2));
    label
}

/// The month label of `date`, or nothing where `date` is no date code with a
/// month from 1 to 12.
pub fn try_convert_date(date: &str) -> (r: Option<String>)
    ensures
        r is Some <==> has_month(date@),
        r is Some ==> r->0@ == month_label(date@),
{
    if is_month_code(date) {
        Some(convert_date(date))
    } else {
        None
    }
}

/// The views of a sequence of strings.
pub open spec fn texts(v: Seq<String>) -> Seq<Seq<char>> {
    v.map_values(|s: String| s@)
}

/// Whether `labels` holds a string equal to `label`.
pub fn holds_text(labels: &Vec<String>, label: &String) -> (r: bool)
    ensures
        r == texts(labels@).contains(label@),
{
    let mut j: usize = 0;
    while j < labels.len()
        invariant
            j <= labels.len(),
            forall|k: int| 0 <= k < j ==> texts(labels@)[k] != label@,
        decreases labels.len() - j,
    {
        if labels[j] == *label {
            assert(texts(labels@)[j as int] == label@);
            return true;
        }
        j += 1;
    }
    false
}

/// The month labels of `dates`, without repetition and in first-seen order.
pub fn generate_months_slice(dates: &Vec<String>) -> (months: Vec<String>)
    requires
        forall|i: int| 0 <= i < dates.len() ==> has_month(#[trigger] dates[i]@),
    ensures
        texts(months@) == distinct_month_labels(texts(dates@)),
{
    let mut months: Vec<String> = Vec::new();
    let mut i: usize = 0;
    assert(texts(dates@).take(0) =~= Seq::empty());
    assert(texts(months@) =~= Seq::empty());
    while i < dates.len()
        invariant
            i <= dates.len(),
            forall|k: int| 0 <= k < dates.len() ==> has_month(#[trigger] dates[k]@),
            texts(months@) == distinct_month_labels(texts(dates@).take(i as int)),
        decreases dates.len() - i,
    {
        let label = convert_date(dates[i].as_str());
        proof {
            let prefix = texts(dates@).take(i + 1);
            assert(prefix.drop_last() =~= texts(dates@).take(i as int));
            assert(prefix.last() == dates[i as int]@);
        }
        if !holds_text(&months, &label) {
            let ghost before = texts(months@);
            months.push(label);
            assert(texts(months@) =~= before.push(label@));
        }
        i += 1;
    }
    assert(texts(dates@).take(i as int) =~= texts(dates@));
    months
}

/// No label occurs twice among the distinct month labels, and a label is
/// among them exactly when it is the label of one of the dates.
pub proof fn lemma_distinct_month_labels(dates: Seq<Seq<char>>)
    ensures
        distinct_month_labels(dates).no_duplicates(),
        forall|label: Seq<char>| #[trigger]
            distinct_month_labels(dates).contains(label) <==> exists|i: int|
                0 <= i < dates.len() && month_label(#[trigger] dates[i]) == label,
    decreases dates.len(),
{
    let out = distinct_month_labels(dates);
    if dates.len() > 0 {
        let earlier = distinct_month_labels(dates.drop_last());
        let last = month_label(dates.last());
        lemma_distinct_month_labels(dates.drop_last());
        assert forall|label: Seq<char>| #[trigger] out.contains(label) <==> exists|i: int|
            0 <= i < dates.len() && month_label(#[trigger] dates[i]) == label by {
            if out.contains(label) {
                if earlier.contains(label) {
                    let i = choose|i: int|
                        0 <= i < dates.drop_last().len() && month_label(
                            #[trigger] dates.drop_last()[i],
                        ) == label;
                    assert(month_label(dates[i]) == label);
                } else {
                    let k = choose|k: int| 0 <= k < out.len() && out[k] == label;
                    if k < earlier.len() {
                        assert(earlier[k] == label);
                    }
                    assert(month_label(dates[dates.len() - 1]) == label);
                }
            }
            if exists|i: int| 0 <= i < dates.len() && month_label(#[trigger] dates[i]) == label {
                let i = choose|i: int|
                    0 <= i < dates.len() && month_label(#[trigger] dates[i]) == label;
                if i < dates.len() - 1 {
                    assert(month_label(dates.drop_last()[i]) == label);
                    assert(earlier.contains(label));
                    let k = choose|k: int| 0 <= k < earlier.len() && earlier[k] == label;
                    assert(out[k] == label);
                } else {
                    if earlier.contains(label) {
                        let k = choose|k: int| 0 <= k < earlier.len() && earlier[k] == label;
                        assert(out[k] == label);
                    } else {
                        assert(out[out.len() - 1] == label);
                    }
                }
            }
        }
    }
}

/// The number of the day `year`-`month`-`day` in the proleptic Gregorian
/// calendar, counted from 1 January of year 1 as day 1, as `chrono` computes
/// it; nothing where `chrono` knows no such day.
pub uninterp spec fn civil_day_number(year: i32, month: u32, day: u32) -> Option<i32>;

/// Calls `chrono::NaiveDate::from_ymd_opt` to make the date and
/// `chrono::Datelike::num_days_from_ce` to count its days. The contract only
/// gives the outcome its name, `civil_day_number`: the result depends on the
/// three numbers alone.
#[verifier::external_body]
fn civil_day(year: i32, month: u32, day: u32) -> (r: Option<i32>)
    ensures
        r == civil_day_number(year, month, day),
{
    match chrono::NaiveDate::from_ymd_opt(year, month, day) {
        Some(date) => Some(chrono::Datelike::num_days_from_ce(&date)),
        None => None,
    }
}

/// The day number of the day that a date code writes; nothing where `s` is
/// no date code or the calendar has no such day.
pub open spec fn day_number_of(s: Seq<char>) -> Option<i32> {
    match date_parts_of(s) {
        Some(parts) => civil_day_number(parts.year, parts.month, parts.day),
        None => None,
    }
}

/// Computes `day_number_of`.
pub fn date_day_number(date: &str) -> (r: Option<i32>)
    ensures
        r == day_number_of(date@),
{
    match parse_date_code(date) {
        Some(parts) => civil_day(parts.year, parts.month, parts.day),
        None => None,
    }
}

/// The signed number of days from `reference` to `target`.
pub open spec fn time_difference(reference: Seq<char>, target: Seq<char>) -> int {
    day_number_of(target)->0 - day_number_of(reference)->0
}

/// The signed number of days from the day numbered `reference_day` to the
/// day numbered `target_day`.
pub fn day_difference(reference_day: i32, target_day: i32) -> (days: i64)
    ensures
        days == target_day - reference_day,
{
    target_day as i64 - reference_day as i64
}

/// The signed number of days from `current_date` to `date`, both date codes
/// of days that exist.
pub fn calc_time_difference(current_date: &str, date: &str) -> (days: i64)
    requires
        day_number_of(current_date@) is Some,
        day_number_of(date@) is Some,
    ensures
        days == time_difference(current_date@, date@),
{
    let reference: i32 = match date_day_number(current_date) {
        Some(n) => n,
        None => 0,
    };
    let target: i32 = match date_day_number(date) {
        Some(n) => n,
        None => 0,
    };
    day_difference(reference, target)
}

/// The signed number of days from `current_date` to `date`; nothing unless
/// both are date codes of days that exist.
pub fn checked_time_difference(current_date: &str, date: &str) -> (r: Option<i64>)
    ensures
        r is Some <==> day_number_of(current_date@) is Some && day_number_of(date@) is Some,
        r is Some ==> r->0 == time_difference(current_date@, date@),
{
    if date_day_number(current_date).is_some() && date_day_number(date).is_some() {
        Some(calc_time_difference(current_date, date))
    } else {
        None
    }
}

/// A date is no days from itself, and going back from `b` to `a` undoes
/// going from `a` to `b`.
pub proof fn lemma_time_difference_antisymmetric(a: Seq<char>, b: Seq<char>)
    ensures
        time_difference(a, a) == 0,
        time_difference(a, b) == -time_difference(b, a),
{
}

} // verus!
