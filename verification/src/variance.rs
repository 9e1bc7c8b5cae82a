//! The one control of the effect: the standard deviation of the delay
//! distribution, kept strictly positive.

use vstd::prelude::*;
use vstd::string::StringExecFns;

verus! {

/// Smallest standard deviation that is ever stored, in nanoseconds.
pub const VARIANCE_FLOOR: u64 = 1;

/// Standard deviation of a freshly created parameter: five milliseconds.
pub const DEFAULT_VARIANCE: u64 = 5_000_000;

/// Number of nanoseconds in one hundredth of a millisecond.
pub const NANOS_PER_HUNDREDTH: u64 = 10_000;

/// What `set` stores for a requested value: the value itself, or the floor
/// where the value lies below it.
pub open spec fn floored(value: i64) -> u64 {
    if value < VARIANCE_FLOOR {
        VARIANCE_FLOOR
    } else {
        value as u64
    }
}

/// The standard deviation of the delay distribution, in nanoseconds.
pub struct VarianceParameter {
    nanos: u64,
}

impl VarianceParameter {
    #[verifier::type_invariant]
    spec fn positive(&self) -> bool {
        self.nanos >= VARIANCE_FLOOR
    }

    /// The stored standard deviation.
    pub closed spec fn view(&self) -> u64 {
        self.nanos
    }

    /// A parameter that holds the default standard deviation.
    pub fn new() -> (param: VarianceParameter)
        ensures
            param@ == DEFAULT_VARIANCE,
    {
        VarianceParameter { nanos: DEFAULT_VARIANCE }
    }

    /// The parameter for a value read back from storage: the value
    /// itself, or the floor where the value lies below it.
    pub fn from_stored(stored: u64) -> (param: VarianceParameter)
        ensures
            param@ == (if stored < VARIANCE_FLOOR {
                VARIANCE_FLOOR
            } else {
                stored
            }),
    {
        if stored < VARIANCE_FLOOR {
            VarianceParameter { nanos: VARIANCE_FLOOR }
        } else {
            VarianceParameter { nanos: stored }
        }
    }

    /// The current standard deviation. It is never zero.
    pub fn get(&self) -> (nanos: u64)
        ensures
            nanos == self@,
            nanos >= VARIANCE_FLOOR,
    {
        proof {
            use_type_invariant(self);
        }
        self.nanos
    }

    /// Stores `value`, raised to the floor where it is zero or negative.
    pub fn set(&mut self, value: i64)
        ensures
            final(self)@ == floored(value),
    {
        if value < 1 {
            self.nanos = VARIANCE_FLOOR;
        } else {
            self.nanos = value as u64;
        }
    }

    /// The standard deviation in hundredths of a millisecond, rounded to
    /// the nearest, halves upwards: the whole milliseconds and the two
    /// decimals of its display.
    pub fn display_parts(&self) -> (parts: (u64, u64))
        ensures
            parts.1 < 100,
            parts.0 * 100 + parts.1 == (self@ + NANOS_PER_HUNDREDTH / 2) / (
            NANOS_PER_HUNDREDTH as int),
    {
        let whole: u64 = self.nanos / NANOS_PER_HUNDREDTH;
        let rest: u64 = self.nanos % NANOS_PER_HUNDREDTH;
        let hundredths: u64 = if rest >= NANOS_PER_HUNDREDTH / 2 {
            whole + 1
        } else {
            whole
        };
        (hundredths / 100, hundredths % 100)
    }
}

impl Default for VarianceParameter {
    /// The parameter as it is at start-up.
    fn default() -> (param: VarianceParameter)
        ensures
            param@ == DEFAULT_VARIANCE,
    {
        VarianceParameter::new()
    }
}

/// The character of a decimal digit.
pub open spec fn digit_char(digit: nat) -> char {
    if digit == 0 {
        '0'
    } else if digit == 1 {
        '1'
    } else if digit == 2 {
        '2'
    } else if digit == 3 {
        '3'
    } else if digit == 4 {
        '4'
    } else if digit == 5 {
        '5'
    } else if digit == 6 {
        '6'
    } else if digit == 7 {
        '7'
    } else if digit == 8 {
        '8'
    } else {
        '9'
    }
}

/// A number in decimal digits, without leading zeros.
pub open spec fn decimal(n: nat) -> Seq<char>
    decreases n,
{
    if n < 10 {
        seq![digit_char(n)]
    } else {
        decimal(n / 10).push(digit_char(n % 10))
    }
}

/// A number of hundredths of a millisecond as it is shown: the whole
/// milliseconds, a point, two decimals, and the unit.
pub open spec fn shown(hundredths: nat) -> Seq<char> {
    decimal(hundredths / 100) + "."@ + seq![digit_char(hundredths % 100 / 10)] + seq![
        digit_char(hundredths % 10),
    ] + " ms"@
}

/// A standard deviation of `nanos` nanoseconds as it is shown: in
/// milliseconds with two decimals, rounded to the nearest hundredth,
/// halves upwards.
pub open spec fn display_text(nanos: u64) -> Seq<char> {
    shown(((nanos + NANOS_PER_HUNDREDTH / 2) / (NANOS_PER_HUNDREDTH as int)) as nat)
}

fn digit_text(digit: u64) -> (text: &'static str)
    requires
        digit < 10,
    ensures
        text@ == seq![digit_char(digit as nat)],
{
    proof {
        reveal_strlit("0");
        reveal_strlit("1");
        reveal_strlit("2");
        reveal_strlit("3");
        reveal_strlit("4");
        reveal_strlit("5");
        reveal_strlit("6");
        reveal_strlit("7");
        reveal_strlit("8");
        reveal_strlit("9");
    }
    let text = match digit {
        0 => "0",
        1 => "1",
        2 => "2",
        3 => "3",
        4 => "4",
        5 => "5",
        6 => "6",
        7 => "7",
        8 => "8",
        _ => "9",
    };
    assert(text@ =~= seq![digit_char(digit as nat)]);
    text
}

fn append_decimal(text: &mut String, n: u64)
    ensures
        final(text)@ == old(text)@ + decimal(n as nat),
    decreases n,
{
    if n >= 10 {
        append_decimal(text, n / 10);
    }
    text.append(digit_text(n % 10));
    assert(text@ =~= old(text)@ + decimal(n as nat));
}

/// The text shown for the control at `index`: the standard deviation in
/// milliseconds for the one control there is, nothing for any other
/// index.
pub fn parameter_text(param: &VarianceParameter, index: i32) -> (text: String)
    ensures
        index == VARIANCE_INDEX ==> text@ == display_text(param@),
        index != VARIANCE_INDEX ==> text@ == ""@,
{
    if index == VARIANCE_INDEX {
        let (whole, hundredths) = param.display_parts();
        let ghost rounded = (whole * 100 + hundredths) as nat;
        assert(rounded / 100 == whole && rounded % 100 == hundredths && rounded % 10 == hundredths
            % 10);
        let mut text = String::new();
        append_decimal(&mut text, whole);
        assert(text@ =~= decimal(rounded / 100));
        text.append(".");
        text.append(digit_text(hundredths / 10));
        text.append(digit_text(hundredths % 10));
        text.append(" ms");
        text
    } else {
        "".to_owned()
    }
}

/// Index of the standard deviation among the controls.
pub const VARIANCE_INDEX: i32 = 0;

/// The name shown for the control at `index`: "Variance" for the one
/// control there is, nothing for any other index.
pub fn parameter_name(index: i32) -> (name: String)
    ensures
        index == VARIANCE_INDEX ==> name@ == "Variance"@,
        index != VARIANCE_INDEX ==> name@ == ""@,
{
    if index == VARIANCE_INDEX {
        "Variance".to_owned()
    } else {
        "".to_owned()
    }
}

/// The value of the control at `index`: the standard deviation for the one
/// control there is, zero for any other index.
pub fn parameter_value(param: &VarianceParameter, index: i32) -> (value: u64)
    ensures
        index == VARIANCE_INDEX ==> value == param@ && value >= VARIANCE_FLOOR,
        index != VARIANCE_INDEX ==> value == 0,
{
    if index == VARIANCE_INDEX {
        param.get()
    } else {
        0
    }
}

/// What a request to set the control at `index` to `value` stores: the
/// floored value for the one control there is, nothing for any other
/// index.
pub fn requested_store(index: i32, value: i64) -> (stored: Option<u64>)
    ensures
        index == VARIANCE_INDEX ==> stored == Some(floored(value)),
        index != VARIANCE_INDEX ==> stored.is_none(),
{
    if index != VARIANCE_INDEX {
        None
    } else if value < 1 {
        Some(VARIANCE_FLOOR)
    } else {
        Some(value as u64)
    }
}

/// Sets the control at `index`: the standard deviation, floored, for the
/// one control there is; any other index changes nothing.
pub fn set_parameter_value(param: &mut VarianceParameter, index: i32, value: i64)
    ensures
        index == VARIANCE_INDEX ==> final(param)@ == floored(value),
        index != VARIANCE_INDEX ==> final(param)@ == old(param)@,
{
    if index == VARIANCE_INDEX {
        param.set(value);
    }
}

} // verus!
