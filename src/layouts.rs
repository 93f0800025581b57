//! What the browser shows: which screen, and the text of the dates beside each entry.
use vstd::prelude::*;
use vstd::string::*;

use crate::file::{FileMetadata, Timestamp};

verus! {

/// Which screen is shown.
#[derive(Debug, Clone, Copy, PartialEq, Eq, Structural)]
pub enum Layout {
    Home,
    Templates,
}

/// The three dates of an entry as they are shown.
pub struct FormattedDates {
    pub created: String,
    pub modified: String,
    pub accessed: String,
}

/// The character of the decimal digit `d`.
pub open spec fn digit_char(d: nat) -> char {
    if d == 0 {
        '0'
    } else if d == 1 {
        '1'
    } else if d == 2 {
        '2'
    } else if d == 3 {
        '3'
    } else if d == 4 {
        '4'
    } else if d == 5 {
        '5'
    } else if d == 6 {
        '6'
    } else if d == 7 {
        '7'
    } else if d == 8 {
        '8'
    } else {
        '9'
    }
}

/// `n` written in decimal, without leading zeros.
pub open spec fn decimal(n: nat) -> Seq<char>
    decreases n,
{
    if n < 10 {
        seq![digit_char(n)]
    } else {
        decimal(n / 10).push(digit_char(n % 10))
    }
}

/// `n` written in decimal, with a minus sign when negative.
pub open spec fn signed_decimal(n: int) -> Seq<char> {
    if n < 0 {
        seq!['-'] + decimal((-n) as nat)
    } else {
        decimal(n as nat)
    }
}

/// `t` as `year-month-day hour:minute:second`, each field in plain decimal.
pub open spec fn datetime_text(t: Timestamp) -> Seq<char> {
    signed_decimal(t.year as int) + seq!['-'] + decimal(t.month as nat) + seq!['-'] + decimal(
        t.day as nat,
    ) + seq![' '] + decimal(t.hour as nat) + seq![':'] + decimal(t.minute as nat) + seq![':']
        + decimal(t.second as nat)
}

/// The shown text of an optional date: the date, or `absent` when there is none.
pub open spec fn date_or(t: Option<Timestamp>, absent: Seq<char>) -> Seq<char> {
    match t {
        Some(t) => datetime_text(t),
        None => absent,
    }
}

fn digit_text(d: u64) -> (r: &'static str)
    requires
        d < 10,
    ensures
        r@ == seq![digit_char(d as nat)],
{
    proof {
        reveal_strlit("0123456789");
    }
    let r = "0123456789".substring_char(d as usize, (d + 1) as usize);
    assert(r@ =~= seq![digit_char(d as nat)]);
    r
}

fn push_decimal(out: &mut String, n: u64)
    ensures
        final(out)@ == old(out)@ + decimal(n as nat),
    decreases n,
{
    if n >= 10 {
        push_decimal(out, n / 10);
    }
    out.append(digit_text(n % 10));
    proof {
        if n >= 10 {
            assert(old(out)@ + decimal((n / 10) as nat) + seq![digit_char((n % 10) as nat)] =~= old(out)@
                + decimal(n as nat));
        } else {
            assert(n % 10 == n);
        }
    }
}

fn push_text(out: &mut String, s: &str)
    ensures
        final(out)@ == old(out)@ + s@,
{
    out.append(s);
}

/// `datetime` as `year-month-day hour:minute:second`.
pub fn format_datetime(datetime: &Timestamp) -> (r: String)
    ensures
        r@ == datetime_text(*datetime),
{
    proof {
        reveal_strlit("-");
        reveal_strlit(" ");
        reveal_strlit(":");
    }
    let mut out = String::new();
    let year = datetime.year as i64;
    if year < 0 {
        push_text(&mut out, "-");
        push_decimal(&mut out, (-year) as u64);
    } else {
        push_decimal(&mut out, year as u64);
    }
    let ghost y = out@;
    assert(y == signed_decimal(datetime.year as int));
    push_text(&mut out, "-");
    push_decimal(&mut out, datetime.month as u64);
    push_text(&mut out, "-");
    push_decimal(&mut out, datetime.day as u64);
    push_text(&mut out, " ");
    push_decimal(&mut out, datetime.hour as u64);
    push_text(&mut out, ":");
    push_decimal(&mut out, datetime.minute as u64);
    push_text(&mut out, ":");
    push_decimal(&mut out, datetime.second as u64);
    assert(out@ =~= datetime_text(*datetime));
    out
}

fn format_or(t: Option<Timestamp>, absent: &str) -> (r: String)
    ensures
        r@ == date_or(t, absent@),
{
    match t {
        Some(t) => format_datetime(&t),
        None => String::from_str(absent),
    }
}

/// The shown dates of an entry, with a note in place of each missing one.
pub fn get_formatted_metadata(metadata: &FileMetadata) -> (r: FormattedDates)
    ensures
        r.created@ == date_or(metadata.created, "No creation date"@),
        r.modified@ == date_or(metadata.modified, "No modified date"@),
        r.accessed@ == date_or(metadata.accessed, "No accessed date"@),
{
    FormattedDates {
        created: format_or(metadata.created, "No creation date"),
        modified: format_or(metadata.modified, "No modified date"),
        accessed: format_or(metadata.accessed, "No accessed date"),
    }
}

} // verus!
