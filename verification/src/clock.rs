//! Wall-clock timestamps: reading the current time as whole seconds since
//! the Unix epoch, and formatting such a reading as `HH:MM:SS`.

use vstd::prelude::*;

verus! {

/// The digit character for one decimal digit.
pub open spec fn digit_char_of(d: int) -> char {
    if d == 0 {
        '0'
    } else if d == 1 {
        '1'
    } else if d == 2 {
        '2'
    } else if d == 3 {
        '3'
    } else if d == 4 {
        '4'
    } else if d == 5 {
        '5'
    } else if d == 6 {
        '6'
    } else if d == 7 {
        '7'
    } else if d == 8 {
        '8'
    } else {
        '9'
    }
}

/// A number below one hundred written with two digits.
pub open spec fn two_digits(n: int) -> Seq<char> {
    seq![digit_char_of(n / 10), digit_char_of(n % 10)]
}

/// The `HH:MM:SS` reading of a time in seconds since the epoch.
pub open spec fn clock_text(secs: u64) -> Seq<char> {
    two_digits((secs as int / 3600) % 24) + seq![':'] + two_digits((secs as int / 60) % 60)
        + seq![':'] + two_digits(secs as int % 60)
}

/// Relies on `std::time::SystemTime::now`: the current time, converted to
/// whole seconds since the Unix epoch, or nothing when the clock stands
/// before the epoch. Nothing can be promised of a clock reading.
#[verifier::external_body]
pub(crate) fn now_unix_secs() -> (t: Option<u64>) {
    match std::time::SystemTime::now().duration_since(std::time::UNIX_EPOCH) {
        Ok(d) => Some(d.as_secs()),
        Err(_) => None,
    }
}

fn digit_str(d: u64) -> (s: &'static str)
    requires
        d < 10,
    ensures
        s@ == seq![digit_char_of(d as int)],
{
    let r: &'static str = match d {
        0 => "0",
        1 => "1",
        2 => "2",
        3 => "3",
        4 => "4",
        5 => "5",
        6 => "6",
        7 => "7",
        8 => "8",
        _ => "9",
    };
    proof {
        reveal_strlit("0");
        reveal_strlit("1");
        reveal_strlit("2");
        reveal_strlit("3");
        reveal_strlit("4");
        reveal_strlit("5");
        reveal_strlit("6");
        reveal_strlit("7");
        reveal_strlit("8");
        reveal_strlit("9");
        assert(r@ =~= seq![digit_char_of(d as int)]);
    }
    r
}

fn two_digit_string(n: u64) -> (s: String)
    requires
        n < 100,
    ensures
        s@ == two_digits(n as int),
{
    let mut s = String::from_str(digit_str(n / 10));
    s.append(digit_str(n % 10));
    proof {
        assert(s@ =~= two_digits(n as int));
    }
    s
}

/// The `HH:MM:SS` display of a captured timestamp, or question marks when
/// the clock reading was unavailable.
pub fn format_timestamp(timestamp_secs: Option<u64>) -> (s: String)
    ensures
        timestamp_secs matches Some(t) ==> s@ == clock_text(t),
        timestamp_secs is None ==> s@ == "??:??:??"@,
{
    match timestamp_secs {
        None => String::from_str("??:??:??"),
        Some(secs) => {
            let hours = (secs / 3600) % 24;
            let minutes = (secs / 60) % 60;
            let seconds = secs % 60;
            let mut s = two_digit_string(hours);
            s.append(":");
            let ms = two_digit_string(minutes);
            s.append(ms.as_str());
            s.append(":");
            let ss = two_digit_string(seconds);
            s.append(ss.as_str());
            proof {
                reveal_strlit(":");
                assert(":"@ =~= seq![':']);
                assert(s@ =~= clock_text(secs));
            }
            s
        },
    }
}

} // verus!
