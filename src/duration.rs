use vstd::prelude::*;

verus! {

/// Why a command-line argument was refused.
#[derive(Debug, Clone, Copy, PartialEq, Eq, Structural)]
pub enum ArgError {
    /// The number is empty or holds something other than decimal digits
    /// (after an optional leading `+`).
    InvalidNumber,
    /// A duration does not end in one of the units `s`, `m`, `h` or `d`.
    UnsupportedUnit,
    /// The value does not fit in 64 bits.
    TooLarge,
    /// An interval below the two-second floor.
    IntervalTooShort,
}

/// The smallest polling interval, in seconds.
pub const MIN_INTERVAL_SECS: u64 = 2;

pub open spec fn is_digit(c: char) -> bool {
    48 <= (c as u32) && (c as u32) <= 57
}

pub open spec fn digit_value(c: char) -> nat {
    ((c as u32) - 48) as nat
}

pub open spec fn all_digits(t: Seq<char>) -> bool {
    forall|k: int| 0 <= k < t.len() ==> is_digit(#[trigger] t[k])
}

/// The value of a string of decimal digits, most significant first.
pub open spec fn digits_value(t: Seq<char>) -> nat
    decreases t.len(),
{
    if t.len() == 0 {
        0
    } else {
        digits_value(t.drop_last()) * 10 + digit_value(t.last())
    }
}

/// The digits of a number, without the one `+` that may lead them.
pub open spec fn unsigned_digits(t: Seq<char>) -> Seq<char> {
    if t.len() > 0 && t[0] == '+' {
        t.drop_first()
    } else {
        t
    }
}

/// The non-negative integer that `t` writes in decimal: one or more digits,
/// after an optional `+`.
pub open spec fn decimal_of(t: Seq<char>) -> Option<nat> {
    let d = unsigned_digits(t);
    if d.len() > 0 && all_digits(d) {
        Some(digits_value(d))
    } else {
        None
    }
}

/// What reading `t` as a 64-bit unsigned integer gives.
pub open spec fn number_outcome(t: Seq<char>) -> Result<u64, ArgError> {
    match decimal_of(t) {
        None => Err(ArgError::InvalidNumber),
        Some(n) => if n <= u64::MAX {
            Ok(n as u64)
        } else {
            Err(ArgError::TooLarge)
        },
    }
}

/// The number of seconds in one of the duration units.
pub open spec fn unit_seconds(c: char) -> Option<nat> {
    if c == 's' {
        Some(1)
    } else if c == 'm' {
        Some(60)
    } else if c == 'h' {
        Some(3600)
    } else if c == 'd' {
        Some(86400)
    } else {
        None
    }
}

pub open spec fn has_unit(t: Seq<char>) -> bool {
    t.len() > 0 && unit_seconds(t.last()) is Some
}

/// What reading `t` as a relative duration in seconds gives: a number
/// followed by exactly one unit letter.
pub open spec fn duration_outcome(t: Seq<char>) -> Result<u64, ArgError> {
    if !has_unit(t) {
        Err(ArgError::UnsupportedUnit)
    } else {
        match decimal_of(t.drop_last()) {
            None => Err(ArgError::InvalidNumber),
            Some(n) => {
                let secs = n * unit_seconds(t.last())->Some_0;
                if secs <= u64::MAX {
                    Ok(secs as u64)
                } else {
                    Err(ArgError::TooLarge)
                }
            },
        }
    }
}

/// What reading `t` as a polling interval in seconds gives.
pub open spec fn interval_outcome(t: Seq<char>) -> Result<u64, ArgError> {
    match number_outcome(t) {
        Ok(v) => if v < MIN_INTERVAL_SECS {
            Err(ArgError::IntervalTooShort)
        } else {
            Ok(v)
        },
        Err(e) => Err(e),
    }
}

proof fn lemma_digits_value_push(t: Seq<char>, i: int)
    requires
        0 <= i < t.len(),
    ensures
        digits_value(t.subrange(0, i + 1)) == digits_value(t.subrange(0, i)) * 10 + digit_value(
            t[i],
        ),
{
    assert(t.subrange(0, i + 1).drop_last() =~= t.subrange(0, i));
}

/// Reads the characters of `s` before `end` as a decimal number.
fn parse_number(s: &str, end: usize) -> (r: Result<u64, ArgError>)
    requires
        end <= s@.len(),
    ensures
        r == number_outcome(s@.subrange(0, end as int)),
{
    let ghost t = s@.subrange(0, end as int);
    let mut start: usize = 0;
    if end > 0 && s.get_char(0) == '+' {
        start = 1;
    }
    let ghost d = t.subrange(start as int, end as int);
    assert(unsigned_digits(t) =~= d);
    if start == end {
        return Err(ArgError::InvalidNumber);
    }
    let mut i: usize = start;
    let mut acc: u64 = 0;
    let mut overflow = false;
    while i < end
        invariant
            start <= i <= end,
            end <= s@.len(),
            t == s@.subrange(0, end as int),
            d == t.subrange(start as int, end as int),
            unsigned_digits(t) == d,
            forall|k: int| 0 <= k < i - start ==> is_digit(#[trigger] d[k]),
            !overflow ==> acc == digits_value(d.subrange(0, i - start)),
            overflow ==> digits_value(d.subrange(0, i - start)) > u64::MAX,
        decreases end - i,
    {
        let c = s.get_char(i);
        let code = c as u32;
        assert(d[i - start] == c);
        if code < 48 || code > 57 {
            assert(!is_digit(d[i - start]));
            return Err(ArgError::InvalidNumber);
        }
        proof {
            lemma_digits_value_push(d, i - start);
        }
        let digit = (code - 48) as u64;
        if !overflow {
            match acc.checked_mul(10) {
                Some(m) => match m.checked_add(digit) {
                    Some(v) => {
                        acc = v;
                    },
                    None => {
                        overflow = true;
                    },
                },
                None => {
                    overflow = true;
                },
            }
        }
        i = i + 1;
    }
    assert(d.subrange(0, i - start) =~= d);
    if overflow {
        Err(ArgError::TooLarge)
    } else {
        Ok(acc)
    }
}

/// Reads a relative duration such as `300s`, `5m`, `4h` or `1d` as a number
/// of seconds. Compound forms such as `1h30m` are refused.
pub fn parse_duration(arg: &str) -> (r: Result<u64, ArgError>)
    ensures
        r == duration_outcome(arg@),
{
    let n = arg.unicode_len();
    if n == 0 {
        return Err(ArgError::UnsupportedUnit);
    }
    let last = arg.get_char(n - 1);
    let unit: u64 = if last == 's' {
        1
    } else if last == 'm' {
        60
    } else if last == 'h' {
        3600
    } else if last == 'd' {
        86400
    } else {
        return Err(ArgError::UnsupportedUnit);
    };
    assert(arg@.subrange(0, n - 1) =~= arg@.drop_last());
    match parse_number(arg, n - 1) {
        Ok(v) => match v.checked_mul(unit) {
            Some(secs) => Ok(secs),
            None => Err(ArgError::TooLarge),
        },
        Err(e) => {
            proof {
                if e == ArgError::TooLarge {
                    let k = decimal_of(arg@.drop_last())->Some_0;
                    assert(k * unit >= k) by (nonlinear_arith)
                        requires
                            unit >= 1,
                    ;
                }
            }
            Err(e)
        },
    }
}

/// Reads the number of seconds between two polls; intervals under two
/// seconds are refused.
pub fn parse_interval(arg: &str) -> (r: Result<u64, ArgError>)
    ensures
        r == interval_outcome(arg@),
{
    let n = arg.unicode_len();
    assert(arg@.subrange(0, n as int) =~= arg@);
    let interval = parse_number(arg, n)?;
    if interval < MIN_INTERVAL_SECS {
        return Err(ArgError::IntervalTooShort);
    }
    Ok(interval)
}

/// A decimal number `n` followed by `s`, `m`, `h` or `d` reads as `n`,
/// `n * 60`, `n * 3600` or `n * 86400` seconds.
pub proof fn lemma_duration_units(digits: Seq<char>)
    requires
        digits.len() > 0,
        all_digits(digits),
        digits_value(digits) * 86400 <= u64::MAX,
    ensures
        duration_outcome(digits.push('s')) == Ok::<u64, ArgError>(digits_value(digits) as u64),
        duration_outcome(digits.push('m')) == Ok::<u64, ArgError>(
            (digits_value(digits) * 60) as u64,
        ),
        duration_outcome(digits.push('h')) == Ok::<u64, ArgError>(
            (digits_value(digits) * 3600) as u64,
        ),
        duration_outcome(digits.push('d')) == Ok::<u64, ArgError>(
            (digits_value(digits) * 86400) as u64,
        ),
{
    assert(is_digit(digits[0]));
    assert(unsigned_digits(digits) == digits);
    assert(digits.push('s').drop_last() =~= digits);
    assert(digits_value(digits) * 1 == digits_value(digits));
    assert(digits.push('m').drop_last() =~= digits);
    assert(digits.push('h').drop_last() =~= digits);
    assert(digits.push('d').drop_last() =~= digits);
}

/// Only a number followed by exactly one unit letter is accepted: text
/// without a unit at its end, or with a unit letter anywhere before the
/// end (a compound such as `1h30m`), is refused.
pub proof fn lemma_duration_needs_number_and_unit(t: Seq<char>)
    ensures
        duration_outcome(t) is Ok ==> has_unit(t) && decimal_of(t.drop_last()) is Some,
        !has_unit(t) ==> duration_outcome(t) is Err,
        forall|k: int|
            0 <= k < t.len() - 1 && #[trigger] unit_seconds(t[k]) is Some ==> duration_outcome(
                t,
            ) is Err,
{
    assert forall|k: int|
        0 <= k < t.len() - 1 && #[trigger] unit_seconds(t[k]) is Some implies duration_outcome(
        t,
    ) is Err by {
        let p = t.drop_last();
        assert(p[k] == t[k]);
        assert(!is_digit(p[k]));
        if p.len() > 0 && p[0] == '+' {
            assert(k > 0);
            assert(unsigned_digits(p)[k - 1] == p[k]);
        } else {
            assert(unsigned_digits(p)[k] == p[k]);
        }
    }
}

} // verus!
