//! Rendering of numbers, durations and wall-clock stamps as text.

use vstd::prelude::*;

verus! {

/// The character for a single decimal digit.
pub open spec fn digit_char(d: nat) -> char {
    if d == 0 {
        '0'
    } else if d == 1 {
        '1'
    } else if d == 2 {
        '2'
    } else if d == 3 {
        '3'
    } else if d == 4 {
        '4'
    } else if d == 5 {
        '5'
    } else if d == 6 {
        '6'
    } else if d == 7 {
        '7'
    } else if d == 8 {
        '8'
    } else {
        '9'
    }
}

/// The decimal rendering of a natural number, most significant digit first,
/// with no leading zeros (zero itself renders as "0").
pub open spec fn dec_seq(n: nat) -> Seq<char>
    decreases n,
{
    if n < 10 {
        seq![digit_char(n)]
    } else {
        dec_seq(n / 10).push(digit_char(n % 10))
    }
}

/// The plural suffix used after a unit word: empty for exactly one,
/// an "s" otherwise.
pub open spec fn plural_s(n: nat) -> Seq<char> {
    if n == 1 {
        Seq::<char>::empty()
    } else {
        "s"@
    }
}

/// The text of a duration given in whole seconds: minutes and seconds when
/// at least one whole minute passed, seconds alone otherwise.
pub open spec fn duration_text(secs: u64) -> Seq<char> {
    let minutes = (secs / 60) as nat;
    let seconds = (secs % 60) as nat;
    if minutes > 0 {
        dec_seq(minutes) + " minute"@ + plural_s(minutes) + " "@ + dec_seq(seconds) + " second"@
            + plural_s(seconds)
    } else {
        dec_seq(seconds) + " second"@ + plural_s(seconds)
    }
}

/// Appends one decimal digit to the string.
fn push_digit(s: &mut String, d: u64)
    requires
        d < 10,
    ensures
        final(s)@ == old(s)@ + seq![digit_char(d as nat)],
{
    let t: &str = if d == 0 {
        "0"
    } else if d == 1 {
        "1"
    } else if d == 2 {
        "2"
    } else if d == 3 {
        "3"
    } else if d == 4 {
        "4"
    } else if d == 5 {
        "5"
    } else if d == 6 {
        "6"
    } else if d == 7 {
        "7"
    } else if d == 8 {
        "8"
    } else {
        "9"
    };
    proof {
        reveal_strlit("0");
        reveal_strlit("1");
        reveal_strlit("2");
        reveal_strlit("3");
        reveal_strlit("4");
        reveal_strlit("5");
        reveal_strlit("6");
        reveal_strlit("7");
        reveal_strlit("8");
        reveal_strlit("9");
        assert(t@ =~= seq![digit_char(d as nat)]);
    }
    s.append(t);
}

/// Appends the decimal rendering of `n` to the string.
pub fn push_dec(s: &mut String, n: u64)
    ensures
        final(s)@ == old(s)@ + dec_seq(n as nat),
    decreases n,
{
    if n >= 10 {
        push_dec(s, n / 10);
    }
    push_digit(s, n % 10);
    proof {
        assert(final(s)@ =~= old(s)@ + dec_seq(n as nat));
    }
}

/// The decimal rendering of a number as a fresh string.
pub fn u64_string(n: u64) -> (r: String)
    ensures
        r@ == dec_seq(n as nat),
{
    let mut s = String::new();
    push_dec(&mut s, n);
    proof {
        assert(s@ =~= dec_seq(n as nat));
    }
    s
}

/// Renders a duration given in whole seconds, as minutes and seconds.
pub fn format_duration(secs: u64) -> (r: String)
    ensures
        r@ == duration_text(secs),
{
    let minutes = secs / 60;
    let seconds = secs % 60;
    let mut r = String::new();
    if minutes > 0 {
        push_dec(&mut r, minutes);
        r.append(" minute");
        if minutes != 1 {
            r.append("s");
        }
        r.append(" ");
        push_dec(&mut r, seconds);
        r.append(" second");
        if seconds != 1 {
            r.append("s");
        }
    } else {
        push_dec(&mut r, seconds);
        r.append(" second");
        if seconds != 1 {
            r.append("s");
        }
    }
    proof {
        assert(r@ =~= duration_text(secs));
    }
    r
}

/// Renders the local wall-clock time as a compact stamp: two digits each for
/// year, month and day, a literal 'T', then two digits each for hour and
/// minute.
///
/// Relies on chrono's `Local::now` and `DateTime::format` with the pattern
/// `%y%m%dT%H%M`: every field is zero-padded to two digits, so the stamp is
/// always eleven characters. The value depends on the clock, so nothing more
/// is claimed of it.
#[verifier::external_body]
pub fn format_timestamp() -> (r: String)
    ensures
        r@.len() == 11,
{
    let dt = chrono::Local::now();
    dt.format("%y%m%dT%H%M").to_string()
}

} // verus!
