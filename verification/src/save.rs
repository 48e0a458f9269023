//! Names and contents of the files that the user saves.

use crate::render::{encode_png, png_image, PngCompression, PngFilter, RenderedFrameRgba};
use crate::text::{decimal, digit_char};
use vstd::prelude::*;

verus! {

/// A point in local time, to the second.
#[derive(Debug, Clone, Copy, PartialEq, Eq, Structural)]
pub struct Timestamp {
    pub year: i32,
    pub month: u32,
    pub day: u32,
    pub hour: u32,
    pub minute: u32,
    pub second: u32,
}

/// The number of days of a month of the Gregorian calendar.
pub open spec fn days_in_month(year: int, month: int) -> int {
    if month == 2 {
        if year % 4 == 0 && (year % 100 != 0 || year % 400 == 0) {
            29
        } else {
            28
        }
    } else if month == 4 || month == 6 || month == 9 || month == 11 {
        30
    } else {
        31
    }
}

impl Timestamp {
    /// The fields name a second of a day of the calendar.
    pub open spec fn valid(self) -> bool {
        &&& -262_143 <= self.year <= 262_142
        &&& 1 <= self.month <= 12
        &&& 1 <= self.day <= days_in_month(self.year as int, self.month as int)
        &&& self.hour < 24
        &&& self.minute < 60
        &&& self.second < 60
    }

    /// The point in time with the given fields, if there is one.
    pub fn new(year: i32, month: u32, day: u32, hour: u32, minute: u32, second: u32) -> (r: Option<
        Timestamp,
    >)
        ensures
            ({
                let t = Timestamp { year, month, day, hour, minute, second };
                r == if t.valid() {
                    Some(t)
                } else {
                    None
                }
            }),
    {
        if year < -262_143 || year > 262_142 || month < 1 || month > 12 || hour >= 24 || minute
            >= 60 || second >= 60 {
            return None;
        }
        // Counted from a multiple of 400 years before the calendar's range.
        let y: i32 = year + 262_400;
        let leap = y % 4 == 0 && (y % 100 != 0 || y % 400 == 0);
        let days: u32 = if month == 2 {
            if leap {
                29
            } else {
                28
            }
        } else if month == 4 || month == 6 || month == 9 || month == 11 {
            30
        } else {
            31
        };
        if day < 1 || day > days {
            return None;
        }
        Some(Timestamp { year, month, day, hour, minute, second })
    }
}

/// `n` as two decimal digits.
pub open spec fn two_digits(n: int) -> Seq<char> {
    seq![digit_char(n / 10, false), digit_char(n % 10, false)]
}

/// `n` with at least four decimal digits.
pub open spec fn four_digits(n: int) -> Seq<char> {
    if n < 10000 {
        two_digits(n / 100) + two_digits(n % 100)
    } else {
        decimal(n as nat)
    }
}

/// A year: four digits, with a sign where these do not suffice.
pub open spec fn year_text(year: int) -> Seq<char> {
    if year < 0 {
        "-"@ + four_digits(-year)
    } else if year < 10000 {
        four_digits(year)
    } else {
        "+"@ + four_digits(year)
    }
}

/// A point in time as it stands in file names: year-month-day_hour-minute-second.
pub open spec fn stamp_text(t: Timestamp) -> Seq<char> {
    year_text(t.year as int) + "-"@ + two_digits(t.month as int) + "-"@ + two_digits(t.day as int)
        + "_"@ + two_digits(t.hour as int) + "-"@ + two_digits(t.minute as int) + "-"@ + two_digits(
        t.second as int,
    )
}

/// `chrono`'s `NaiveDateTime::format` with the date and time that
/// `NaiveDate::from_ymd_opt` and `NaiveDate::and_hms_opt` make of the fields,
/// which they do for every valid time stamp. Of the patterns of `format` only
/// the one named is spoken of: `%Y` is the year with at least four digits,
/// signed if it has more or is negative; the other fields have two digits.
#[verifier::external_body]
fn format_time(t: Timestamp, pattern: &str) -> (r: String)
    requires
        t.valid(),
        pattern@ == "%Y-%m-%d_%H-%M-%S"@,
    ensures
        r@ == stamp_text(t),
{
    let date = chrono::NaiveDate::from_ymd_opt(t.year, t.month, t.day).expect("valid date");
    let time = date.and_hms_opt(t.hour, t.minute, t.second).expect("valid time");
    time.format(pattern).to_string()
}

fn stamped_name(t: Timestamp, extension: &str) -> (r: String)
    requires
        t.valid(),
    ensures
        r@ == "p2pro_"@ + stamp_text(t) + extension@,
{
    let mut r = "p2pro_".to_owned();
    r.append(format_time(t, "%Y-%m-%d_%H-%M-%S").as_str());
    r.append(extension);
    r
}

/// The suggested name of a picture saved at the given time.
pub fn make_filename(t: Timestamp) -> (r: String)
    requires
        t.valid(),
    ensures
        r@ == "p2pro_"@ + stamp_text(t) + ".png"@,
{
    stamped_name(t, ".png")
}

/// The suggested name of a video saved at the given time.
pub fn make_video_filename(t: Timestamp) -> (r: String)
    requires
        t.valid(),
    ensures
        r@ == "p2pro_"@ + stamp_text(t) + ".avi"@,
{
    stamped_name(t, ".avi")
}

/// The PNG file of a rendered frame, as small as it gets.
pub fn encode_save_file_png(width: u32, height: u32, rgba: &RenderedFrameRgba) -> (r: Vec<u8>)
    requires
        width > 0,
        height > 0,
        rgba.bytes@.len() == width * height * 4,
        width * height * 4 <= u32::MAX,
    ensures
        r@ == png_image(
            width,
            height,
            rgba.bytes@,
            PngCompression::Best,
            PngFilter::Adaptive,
        ),
{
    encode_png(width, height, rgba.bytes.as_slice(), PngCompression::Best, PngFilter::Adaptive)
}

/// The months have 31 days, but for four that have 30 and February, which has
/// 28, or 29 in a leap year: every fourth year, but of the hundreds only every
/// fourth.
pub proof fn law_calendar(year: int, month: int)
    requires
        1 <= month <= 12,
    ensures
        month != 2 && month != 4 && month != 6 && month != 9 && month != 11 ==> days_in_month(
            year,
            month,
        ) == 31,
        month == 4 || month == 6 || month == 9 || month == 11 ==> days_in_month(year, month) == 30,
        month == 2 && year % 4 != 0 ==> days_in_month(year, month) == 28,
        month == 2 && year % 400 == 0 ==> days_in_month(year, month) == 29,
        month == 2 && year % 100 == 0 && year % 400 != 0 ==> days_in_month(year, month) == 28,
        month == 2 && year % 4 == 0 && year % 100 != 0 ==> days_in_month(year, month) == 29,
{
}

/// A time stamp is valid if its day is in the calendar and its time in the day.
pub proof fn law_valid_time(t: Timestamp)
    ensures
        t.valid() <==> {
            &&& -262143 <= t.year <= 262142
            &&& 1 <= t.month <= 12
            &&& 1 <= t.day <= days_in_month(t.year as int, t.month as int)
            &&& 0 <= t.hour <= 23 && 0 <= t.minute <= 59 && 0 <= t.second <= 59
        },
{
}

/// Between the hyphens and the underscore the digits of a time stamp of the
/// years 0 to 9999 spell its fields, each at its fixed place.
pub proof fn law_time_stamp_spells_its_fields(t: Timestamp)
    requires
        t.valid(),
        0 <= t.year <= 9999,
    ensures
        ({
            let s = stamp_text(t);
            let d = |i: int| s[i] as u32 - 48;
            &&& s.len() == 19
            &&& s[4] == '-' && s[7] == '-' && s[10] == '_' && s[13] == '-' && s[16] == '-'
            &&& forall|i: int|
                0 <= i < 19 && i != 4 && i != 7 && i != 10 && i != 13 && i != 16 ==> 48 <= (
                #[trigger] s[i]) as u32 <= 57
            &&& 1000 * d(0) + 100 * d(1) + 10 * d(2) + d(3) == t.year
            &&& 10 * d(5) + d(6) == t.month
            &&& 10 * d(8) + d(9) == t.day
            &&& 10 * d(11) + d(12) == t.hour
            &&& 10 * d(14) + d(15) == t.minute
            &&& 10 * d(17) + d(18) == t.second
        }),
{
    reveal_strlit("-");
    reveal_strlit("_");
    let s = stamp_text(t);
    let y = t.year as int;
    lemma_two_digits(y / 100);
    lemma_two_digits(y % 100);
    lemma_two_digits(t.month as int);
    lemma_two_digits(t.day as int);
    lemma_two_digits(t.hour as int);
    lemma_two_digits(t.minute as int);
    lemma_two_digits(t.second as int);
    assert(s[0] == two_digits(y / 100)[0] && s[1] == two_digits(y / 100)[1]);
    assert(s[2] == two_digits(y % 100)[0] && s[3] == two_digits(y % 100)[1]);
    assert(s[5] == two_digits(t.month as int)[0] && s[6] == two_digits(t.month as int)[1]);
    assert(s[8] == two_digits(t.day as int)[0] && s[9] == two_digits(t.day as int)[1]);
    assert(s[11] == two_digits(t.hour as int)[0] && s[12] == two_digits(t.hour as int)[1]);
    assert(s[14] == two_digits(t.minute as int)[0] && s[15] == two_digits(t.minute as int)[1]);
    assert(s[17] == two_digits(t.second as int)[0] && s[18] == two_digits(t.second as int)[1]);
}

proof fn lemma_two_digits(n: int)
    requires
        0 <= n < 100,
    ensures
        two_digits(n).len() == 2,
        48 <= two_digits(n)[0] as u32 <= 57,
        48 <= two_digits(n)[1] as u32 <= 57,
        10 * (two_digits(n)[0] as u32 - 48) + (two_digits(n)[1] as u32 - 48) == n,
{
    crate::text::law_digits_are_ascii(n / 10);
    crate::text::law_digits_are_ascii(n % 10);
}

/// A year beyond four digits has a sign; a negative one has the digits of its
/// magnitude.
pub proof fn law_far_years_have_a_sign(year: int)
    ensures
        year > 9999 ==> year_text(year) == seq!['+'] + decimal(year as nat),
        year < -9999 ==> year_text(year) == seq!['-'] + decimal((-year) as nat),
        -9999 <= year < 0 ==> year_text(year) == seq!['-'] + year_text(-year),
{
    reveal_strlit("+");
    reveal_strlit("-");
    assert("+"@ =~= seq!['+']);
    assert("-"@ =~= seq!['-']);
}

/// The year stands first and leaves the rest of a time stamp alone: two times
/// that differ in nothing but the year have the same text behind it.
pub proof fn law_year_leaves_the_rest_alone(t: Timestamp, year: i32)
    ensures
        ({
            let other = Timestamp { year, ..t };
            exists|rest: Seq<char>|
                stamp_text(t) == year_text(t.year as int) + rest && stamp_text(other)
                    == #[trigger] (year_text(year as int) + rest)
        }),
{
    let other = Timestamp { year, ..t };
    let rest = "-"@ + two_digits(t.month as int) + "-"@ + two_digits(t.day as int) + "_"@
        + two_digits(t.hour as int) + "-"@ + two_digits(t.minute as int) + "-"@ + two_digits(
        t.second as int,
    );
    assert(stamp_text(t) =~= year_text(t.year as int) + rest);
    assert(stamp_text(other) =~= year_text(year as int) + rest);
}

} // verus!
