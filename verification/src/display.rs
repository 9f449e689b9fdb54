//! Textual presentation of levels and stat values.
//!
//! Library types cannot carry the standard formatting machinery here, so
//! each offers a method that returns its display text as a `String`, pinned
//! down character by character: whole numbers in decimal, fixed-point
//! amounts rounded to one decimal place, additive deltas with an explicit
//! sign, percentages with a trailing percent mark.

use vstd::prelude::*;

use crate::skill::Level;
use crate::values::Value;

verus! {

/// The character for one decimal digit.
pub open spec fn digit_char(d: int) -> char {
    if d == 0 {
        '0'
    } else if d == 1 {
        '1'
    } else if d == 2 {
        '2'
    } else if d == 3 {
        '3'
    } else if d == 4 {
        '4'
    } else if d == 5 {
        '5'
    } else if d == 6 {
        '6'
    } else if d == 7 {
        '7'
    } else if d == 8 {
        '8'
    } else {
        '9'
    }
}

/// The decimal text of a natural number, most significant digit first.
pub open spec fn decimal_text(n: nat) -> Seq<char>
    decreases n,
{
    if n < 10 {
        seq![digit_char(n as int)]
    } else {
        decimal_text(n / 10).push(digit_char((n % 10) as int))
    }
}

/// The text of a nonnegative fixed-point amount in thousandths, rounded
/// half-up to one decimal place; a whole result drops the decimal point.
pub open spec fn fixed_text(m: nat) -> Seq<char> {
    let t = (m + 50) / 100;
    if t % 10 == 0 {
        decimal_text(t / 10)
    } else {
        decimal_text(t / 10).push('.').push(digit_char((t % 10) as int))
    }
}

/// The text of a signed fixed-point amount: a minus from the number itself,
/// a plus only where the caller asks to show one.
pub open spec fn signed_fixed_text(x: int, explicit_plus: bool) -> Seq<char> {
    if x < 0 {
        seq!['-'] + fixed_text((-x) as nat)
    } else if explicit_plus {
        seq!['+'] + fixed_text(x as nat)
    } else {
        fixed_text(x as nat)
    }
}

/// The display text of a stat change: absolute amounts bare, deltas with an
/// explicit sign, percentages signed with a trailing percent mark.
pub open spec fn value_text(v: Value) -> Seq<char> {
    match v {
        Value::F(x) => signed_fixed_text(x as int, false),
        Value::U(x) => decimal_text(x as nat),
        Value::AddF(x) => signed_fixed_text(x as int, true),
        Value::AddU(x) => seq!['+'] + decimal_text(x as nat),
        Value::Perc(x) => signed_fixed_text(x as int, true).push('%'),
    }
}

/// One decimal digit as text.
fn digit_str(d: u64) -> (s: &'static str)
    requires
        d < 10,
    ensures
        s@ == seq![digit_char(d as int)],
{
    let s: &'static str = if d == 0 {
        "0"
    } else if d == 1 {
        "1"
    } else if d == 2 {
        "2"
    } else if d == 3 {
        "3"
    } else if d == 4 {
        "4"
    } else if d == 5 {
        "5"
    } else if d == 6 {
        "6"
    } else if d == 7 {
        "7"
    } else if d == 8 {
        "8"
    } else {
        "9"
    };
    proof {
        reveal_strlit("0");
        reveal_strlit("1");
        reveal_strlit("2");
        reveal_strlit("3");
        reveal_strlit("4");
        reveal_strlit("5");
        reveal_strlit("6");
        reveal_strlit("7");
        reveal_strlit("8");
        reveal_strlit("9");
        assert(s@ =~= seq![digit_char(d as int)]);
    }
    s
}

/// Renders a natural number in decimal.
pub fn u64_to_decimal(n: u64) -> (s: String)
    ensures
        s@ == decimal_text(n as nat),
    decreases n,
{
    if n < 10 {
        let mut s = String::new();
        s.append(digit_str(n));
        proof {
            assert(s@ =~= decimal_text(n as nat));
        }
        s
    } else {
        let mut s = u64_to_decimal(n / 10);
        s.append(digit_str(n % 10));
        proof {
            assert(s@ =~= decimal_text(n as nat));
        }
        s
    }
}

/// Renders a nonnegative fixed-point amount, rounded to one decimal place.
fn fixed_to_text(m: u64) -> (s: String)
    requires
        m <= i64::MAX as u64 + 1,
    ensures
        s@ == fixed_text(m as nat),
{
    let t = (m + 50) / 100;
    if t % 10 == 0 {
        u64_to_decimal(t / 10)
    } else {
        let mut s = u64_to_decimal(t / 10);
        s.append(".");
        s.append(digit_str(t % 10));
        proof {
            reveal_strlit(".");
            assert(s@ =~= fixed_text(m as nat));
        }
        s
    }
}

/// The magnitude of a signed fixed-point amount.
fn magnitude(x: i64) -> (m: u64)
    ensures
        m == (if x < 0 {
            -(x as int)
        } else {
            x as int
        }),
{
    if x < 0 {
        (-(x as i128)) as u64
    } else {
        x as u64
    }
}

/// Renders a signed fixed-point amount.
fn signed_fixed_to_text(x: i64, explicit_plus: bool) -> (s: String)
    ensures
        s@ == signed_fixed_text(x as int, explicit_plus),
{
    let m = magnitude(x);
    if x < 0 {
        let mut s = String::new();
        s.append("-");
        let tail = fixed_to_text(m);
        s.append(tail.as_str());
        proof {
            reveal_strlit("-");
            assert(s@ =~= signed_fixed_text(x as int, explicit_plus));
        }
        s
    } else if explicit_plus {
        let mut s = String::new();
        s.append("+");
        let tail = fixed_to_text(m);
        s.append(tail.as_str());
        proof {
            reveal_strlit("+");
            assert(s@ =~= signed_fixed_text(x as int, explicit_plus));
        }
        s
    } else {
        fixed_to_text(m)
    }
}

impl Value {
    /// This value's display text.
    pub fn display(&self) -> (s: String)
        ensures
            s@ == value_text(*self),
    {
        match self {
            Value::F(x) => signed_fixed_to_text(*x, false),
            Value::U(x) => u64_to_decimal(*x as u64),
            Value::AddF(x) => signed_fixed_to_text(*x, true),
            Value::AddU(x) => {
                let mut s = String::new();
                s.append("+");
                let tail = u64_to_decimal(*x as u64);
                s.append(tail.as_str());
                proof {
                    reveal_strlit("+");
                    assert(s@ =~= value_text(*self));
                }
                s
            },
            Value::Perc(x) => {
                let mut s = signed_fixed_to_text(*x, true);
                s.append("%");
                proof {
                    reveal_strlit("%");
                    assert(s@ =~= value_text(*self));
                }
                s
            },
        }
    }
}

impl Level {
    /// The level's display text: its one-based number.
    pub fn display(&self) -> (s: String)
        ensures
            s@ == decimal_text(self.ordinal() + 1),
    {
        u64_to_decimal(self.0 as u64 + 1)
    }
}

} // verus!
