use vstd::prelude::*;
use vstd::string::StringExecFns;

verus! {

/// A span of time held as a whole number of nanoseconds.
#[derive(Clone, Copy, Debug, PartialEq, Eq, Structural, PartialOrd, Ord, Hash)]
pub struct Duration {
    pub nanos: u128,
}

/// The character of decimal digit `d`.
pub open spec fn digit_char(d: nat) -> char {
    seq!['0', '1', '2', '3', '4', '5', '6', '7', '8', '9'][d as int]
}

/// The decimal digits of `n`, without leading zeros.
pub open spec fn decimal(n: nat) -> Seq<char>
    decreases n,
{
    if n < 10 {
        seq![digit_char(n)]
    } else {
        decimal(n / 10).push(digit_char(n % 10))
    }
}

/// `num / den` rounded to the nearest integer, ties to even.
pub open spec fn round_div(num: nat, den: nat) -> nat {
    let q = num / den;
    let r = num % den;
    if 2 * r > den || (2 * r == den && q % 2 == 1) {
        q + 1
    } else {
        q
    }
}

/// `n / unit` written with two decimal places.
pub open spec fn two_places(n: nat, unit: nat) -> Seq<char> {
    let h = round_div(n * 100, unit);
    decimal(h / 100) + seq!['.', digit_char((h % 100) / 10), digit_char(h % 10)]
}

/// How a span of `n` nanoseconds is written: whole nanoseconds below a
/// microsecond; microseconds, milliseconds or seconds with two decimals
/// below a minute; whole minutes and seconds from a minute up.
pub open spec fn duration_text(n: nat) -> Seq<char> {
    if n < 1000 {
        decimal(n) + seq!['n', 's']
    } else if n < 1_000_000 {
        two_places(n, 1000) + seq!['\u{b5}', 's']
    } else if n < 1_000_000_000 {
        two_places(n, 1_000_000) + seq!['m', 's']
    } else if n < 60_000_000_000 {
        two_places(n, 1_000_000_000) + seq!['s']
    } else {
        decimal(n / 1_000_000_000 / 60) + seq!['m', ' '] + decimal((n / 1_000_000_000) % 60) + seq![
            's',
        ]
    }
}

fn append_digit(s: &mut String, d: u128)
    requires
        d < 10,
    ensures
        final(s)@ == old(s)@.push(digit_char(d as nat)),
{
    let text = if d == 0 {
        proof { reveal_strlit("0"); }
        "0"
    } else if d == 1 {
        proof { reveal_strlit("1"); }
        "1"
    } else if d == 2 {
        proof { reveal_strlit("2"); }
        "2"
    } else if d == 3 {
        proof { reveal_strlit("3"); }
        "3"
    } else if d == 4 {
        proof { reveal_strlit("4"); }
        "4"
    } else if d == 5 {
        proof { reveal_strlit("5"); }
        "5"
    } else if d == 6 {
        proof { reveal_strlit("6"); }
        "6"
    } else if d == 7 {
        proof { reveal_strlit("7"); }
        "7"
    } else if d == 8 {
        proof { reveal_strlit("8"); }
        "8"
    } else {
        proof { reveal_strlit("9"); }
        "9"
    };
    assert(text@ =~= seq![digit_char(d as nat)]);
    s.append(text);
}

fn append_decimal(s: &mut String, n: u128)
    ensures
        final(s)@ == old(s)@ + decimal(n as nat),
    decreases n,
{
    if n >= 10 {
        append_decimal(s, n / 10);
        append_digit(s, n % 10);
        assert(final(s)@ =~= old(s)@ + decimal(n as nat));
    } else {
        append_digit(s, n);
        assert(final(s)@ =~= old(s)@ + decimal(n as nat));
    }
}

fn append_two_places(s: &mut String, n: u128, unit: u128)
    requires
        n < 60_000_000_000,
        0 < unit <= 1_000_000_000,
    ensures
        final(s)@ == old(s)@ + two_places(n as nat, unit as nat),
{
    let num = n * 100;
    let q = num / unit;
    let r = num % unit;
    let h = if 2 * r > unit || (2 * r == unit && q % 2 == 1) {
        q + 1
    } else {
        q
    };
    append_decimal(s, h / 100);
    proof { reveal_strlit("."); }
    s.append(".");
    append_digit(s, (h % 100) / 10);
    append_digit(s, h % 10);
    assert(final(s)@ =~= old(s)@ + two_places(n as nat, unit as nat));
}

impl Duration {
    /// The zero-length span.
    pub fn zero() -> (d: Duration)
        ensures
            d.nanos == 0,
    {
        Duration { nanos: 0 }
    }

    /// The span of `nanos` nanoseconds.
    pub fn from_nanos(nanos: u128) -> (d: Duration)
        ensures
            d.nanos == nanos,
    {
        Duration { nanos }
    }

    /// The whole number of nanoseconds.
    pub fn as_nanos(&self) -> (r: u128)
        ensures
            r == self.nanos,
    {
        self.nanos
    }

    /// The whole number of microseconds, rounded down.
    pub fn as_micros(&self) -> (r: u128)
        ensures
            r == self.nanos / 1000,
    {
        self.nanos / 1000
    }

    /// The span written for people: `123ns`, `1.50\u{b5}s`, `1.50ms`,
    /// `1.50s`, `1m 5s`. Two decimals are rounded to nearest, ties to even.
    pub fn to_string(&self) -> (r: String)
        ensures
            r@ == duration_text(self.nanos as nat),
    {
        let n = self.nanos;
        let mut s = String::new();
        if n < 1000 {
            append_decimal(&mut s, n);
            proof { reveal_strlit("ns"); }
            s.append("ns");
        } else if n < 1_000_000 {
            append_two_places(&mut s, n, 1000);
            proof { reveal_strlit("\u{b5}s"); }
            s.append("\u{b5}s");
        } else if n < 1_000_000_000 {
            append_two_places(&mut s, n, 1_000_000);
            proof { reveal_strlit("ms"); }
            s.append("ms");
        } else if n < 60_000_000_000 {
            append_two_places(&mut s, n, 1_000_000_000);
            proof { reveal_strlit("s"); }
            s.append("s");
        } else {
            let secs = n / 1_000_000_000;
            append_decimal(&mut s, secs / 60);
            proof { reveal_strlit("m "); }
            s.append("m ");
            append_decimal(&mut s, secs % 60);
            proof { reveal_strlit("s"); }
            s.append("s");
        }
        assert(s@ =~= duration_text(n as nat));
        s
    }

    /// The whole number of milliseconds, rounded down.
    pub fn as_millis(&self) -> (r: u128)
        ensures
            r == self.nanos / 1_000_000,
    {
        self.nanos / 1_000_000
    }
}

} // verus!
