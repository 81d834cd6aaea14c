use vstd::prelude::*;
use vstd::string::StringExecFns;

verus! {

/// A point in time, measured in whole seconds relative to the Unix epoch.
///
/// Callers that hold richer time values (calendar dates, timezone-aware
/// datetimes) convert them to a second count before handing them to the
/// library; the sweep only ever compares instants and subtracts them.
#[derive(Debug, Clone, Copy, PartialEq, Eq, Structural)]
pub struct Instant {
    /// Seconds since the Unix epoch (negative values lie before it).
    pub secs: i64,
}

impl View for Instant {
    type V = int;

    open spec fn view(&self) -> int {
        self.secs as int
    }
}

impl Instant {
    /// Wraps a second count as an instant.
    pub fn from_secs(secs: i64) -> (r: Instant)
        ensures
            r@ == secs as int,
    {
        Instant { secs }
    }
}

/// Lowest second count that the calendar rendering accepts. It lies
/// safely inside the range that the calendar backend can represent
/// (about 262,000 years either side of the common era).
pub const RENDER_MIN_SECS: i64 = -8_000_000_000_000;

/// Highest second count that the calendar rendering accepts.
pub const RENDER_MAX_SECS: i64 = 8_000_000_000_000;

/// The calendar text (`YYYY-MM-DD hh:mm:ss`, in UTC) of the instant `t`
/// seconds from the epoch. A function of the second count alone; its
/// value is determined only by the calendar backend.
pub uninterp spec fn datetime_text_of(t: int) -> Seq<char>;

/// Relies on chrono's `DateTime::<Utc>::from_timestamp` and on
/// `DateTime::format` with `"%Y-%m-%d %H:%M:%S"`: for a second count
/// within chrono's documented range (about 262,000 years either side of
/// the common era, well outside the bounds required here) the conversion
/// returns a datetime, and formatting it yields text that depends on the
/// second count alone.
#[verifier::external_body]
fn format_timestamp(t: Instant) -> (r: String)
    requires
        RENDER_MIN_SECS as int <= t@ <= RENDER_MAX_SECS as int,
    ensures
        r@ == datetime_text_of(t@),
{
    chrono::DateTime::<chrono::Utc>::from_timestamp(t.secs, 0)
        .unwrap()
        .format("%Y-%m-%d %H:%M:%S")
        .to_string()
}

/// The character for one decimal digit.
pub open spec fn digit_char(d: int) -> char {
    if d == 0 {
        '0'
    } else if d == 1 {
        '1'
    } else if d == 2 {
        '2'
    } else if d == 3 {
        '3'
    } else if d == 4 {
        '4'
    } else if d == 5 {
        '5'
    } else if d == 6 {
        '6'
    } else if d == 7 {
        '7'
    } else if d == 8 {
        '8'
    } else {
        '9'
    }
}

/// The decimal representation of a natural number, most significant
/// digit first, without leading zeroes (except for zero itself).
pub open spec fn dec_rep(n: nat) -> Seq<char>
    decreases n,
{
    if n < 10 {
        seq![digit_char(n as int)]
    } else {
        dec_rep(n / 10) + seq![digit_char((n % 10) as int)]
    }
}

/// The text of one decimal digit.
fn digit_str(d: u8) -> (r: &'static str)
    requires
        d < 10,
    ensures
        r@ == seq![digit_char(d as int)],
{
    if d == 0 {
        proof {
            reveal_strlit("0");
            assert("0"@ =~= seq![digit_char(0)]);
        }
        "0"
    } else if d == 1 {
        proof {
            reveal_strlit("1");
            assert("1"@ =~= seq![digit_char(1)]);
        }
        "1"
    } else if d == 2 {
        proof {
            reveal_strlit("2");
            assert("2"@ =~= seq![digit_char(2)]);
        }
        "2"
    } else if d == 3 {
        proof {
            reveal_strlit("3");
            assert("3"@ =~= seq![digit_char(3)]);
        }
        "3"
    } else if d == 4 {
        proof {
            reveal_strlit("4");
            assert("4"@ =~= seq![digit_char(4)]);
        }
        "4"
    } else if d == 5 {
        proof {
            reveal_strlit("5");
            assert("5"@ =~= seq![digit_char(5)]);
        }
        "5"
    } else if d == 6 {
        proof {
            reveal_strlit("6");
            assert("6"@ =~= seq![digit_char(6)]);
        }
        "6"
    } else if d == 7 {
        proof {
            reveal_strlit("7");
            assert("7"@ =~= seq![digit_char(7)]);
        }
        "7"
    } else if d == 8 {
        proof {
            reveal_strlit("8");
            assert("8"@ =~= seq![digit_char(8)]);
        }
        "8"
    } else {
        proof {
            reveal_strlit("9");
            assert("9"@ =~= seq![digit_char(9)]);
        }
        "9"
    }
}

/// Renders a natural number in decimal.
fn u64_to_string(n: u64) -> (r: String)
    ensures
        r@ == dec_rep(n as nat),
    decreases n,
{
    if n < 10 {
        String::from_str(digit_str(n as u8))
    } else {
        proof {
            assert(n / 10 < n) by (nonlinear_arith)
                requires
                    n >= 10,
            ;
        }
        let mut r = u64_to_string(n / 10);
        r.append(digit_str((n % 10) as u8));
        proof {
            assert(r@ =~= dec_rep(n as nat));
        }
        r
    }
}

/// Whole hours of the duration between two instants.
pub open spec fn duration_hours(s: int, e: int) -> int {
    (e - s) / 3600
}

/// Remainder minutes of the duration between two instants.
pub open spec fn duration_minutes(s: int, e: int) -> int {
    ((e - s) / 60) % 60
}

/// Whether the pair of instants can be rendered: both lie in the range
/// the calendar rendering accepts, and they are ordered.
pub open spec fn renderable(s: int, e: int) -> bool {
    &&& RENDER_MIN_SECS as int <= s <= RENDER_MAX_SECS as int
    &&& RENDER_MIN_SECS as int <= e <= RENDER_MAX_SECS as int
    &&& s <= e
}

/// The rendered text of a period: its start and end instants as calendar
/// text, then the duration in whole hours and remainder minutes.
pub open spec fn render_text(s: int, e: int) -> Seq<char> {
    "start: "@ + datetime_text_of(s) + ", end: "@ + datetime_text_of(e) + ", duration: "@
        + dec_rep(duration_hours(s, e) as nat) + "h "@ + dec_rep(duration_minutes(s, e) as nat)
        + "m"@
}

/// Renders the period that runs from `start` to `end`.
pub fn render_period(start: Instant, end: Instant) -> (r: String)
    requires
        renderable(start@, end@),
    ensures
        r@ == render_text(start@, end@),
{
    let mut s = String::from_str("start: ");
    let st = format_timestamp(start);
    s.append(st.as_str());
    s.append(", end: ");
    let en = format_timestamp(end);
    s.append(en.as_str());
    s.append(", duration: ");
    let d: u64 = ((end.secs as i128) - (start.secs as i128)) as u64;
    proof {
        assert(d == end@ - start@);
    }
    let hours = u64_to_string(d / 3600);
    s.append(hours.as_str());
    s.append("h ");
    let mins = u64_to_string((d / 60) % 60);
    s.append(mins.as_str());
    s.append("m");
    proof {
        assert(s@ =~= render_text(start@, end@));
    }
    s
}

} // verus!
