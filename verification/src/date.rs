//! Calendar dates as plain numbers, and their file-name form.
//!
//! The tool names each day's entry after its date. A date here is a year,
//! month and day; where the current date is needed, the caller reads the
//! clock at the edge and hands the numbers in.

use vstd::prelude::*;

use crate::digits::digit_char;
use crate::digits::digit_str;

verus! {

/// A calendar date. Validity is the usual calendar shape, with the year
/// capped so the printed form is always four digits.
pub struct DayDate {
    pub year: u32,
    pub month: u32,
    pub day: u32,
}

impl DayDate {
    /// The shape a printable date must have.
    pub open spec fn valid(&self) -> bool {
        &&& self.year <= 9999
        &&& 1 <= self.month <= 12
        &&& 1 <= self.day <= 31
    }
}

/// Two decimal digits, zero padded.
pub open spec fn two_digits_spec(n: nat) -> Seq<char> {
    seq![digit_char(n / 10), digit_char(n % 10)]
}

/// Four decimal digits, zero padded.
pub open spec fn four_digits_spec(n: nat) -> Seq<char> {
    seq![
        digit_char(n / 1000),
        digit_char((n / 100) % 10),
        digit_char((n / 10) % 10),
        digit_char(n % 10),
    ]
}

/// A date in the fixed `YYYY-MM-DD` form.
pub open spec fn date_spec(d: DayDate) -> Seq<char> {
    four_digits_spec(d.year as nat) + "-"@ + two_digits_spec(d.month as nat) + "-"@
        + two_digits_spec(d.day as nat)
}

/// Two decimal digits, zero padded.
pub fn two_digits(n: u32) -> (r: String)
    requires
        n < 100,
    ensures
        r@ == two_digits_spec(n as nat),
{
    String::from_str(digit_str((n / 10) as usize)).concat(digit_str((n % 10) as usize))
}

/// Four decimal digits, zero padded.
pub fn four_digits(n: u32) -> (r: String)
    requires
        n < 10000,
    ensures
        r@ == four_digits_spec(n as nat),
{
    String::from_str(digit_str((n / 1000) as usize)).concat(digit_str(((n / 100) % 10) as usize))
        .concat(digit_str(((n / 10) % 10) as usize)).concat(digit_str((n % 10) as usize))
}

/// Render a date as `YYYY-MM-DD`.
pub fn format_date(d: &DayDate) -> (r: String)
    requires
        d.valid(),
    ensures
        r@ == date_spec(*d),
{
    proof {
        reveal_strlit("-");
    }
    four_digits(d.year).concat("-").concat(two_digits(d.month).as_str()).concat("-").concat(
        two_digits(d.day).as_str(),
    )
}

/// The file name of the entry for a date: the date plus the markdown
/// suffix.
pub fn date_file_name(d: &DayDate) -> (r: String)
    requires
        d.valid(),
    ensures
        r@ == date_spec(*d) + ".md"@,
{
    proof {
        reveal_strlit(".md");
    }
    format_date(d).concat(".md")
}

} // verus!
