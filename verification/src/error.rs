use vstd::prelude::*;

verus! {

/// Errors returned when an operator configuration or its inputs are invalid.
#[derive(Clone, Debug, PartialEq, Eq)]
#[non_exhaustive]
pub enum IndicatorError {
    /// A period was zero.
    InvalidPeriod,
    /// A named parameter fell outside its documented domain.
    InvalidParameter(&'static str),
    /// Related input slices have different lengths.
    LengthMismatch {
        /// Name of the slice whose length differs from the primary input.
        input: &'static str,
        /// Required length.
        expected: usize,
        /// Supplied length.
        actual: usize,
    },
}

} // verus!

verus! {

/// The decimal digit character for `d < 10`.
pub open spec fn digit_char(d: nat) -> char {
    (48 + d) as char
}

/// Decimal rendering of `n`, most significant digit first, without leading zeros.
pub open spec fn decimal(n: nat) -> Seq<char>
    decreases n,
{
    if n < 10 {
        seq![digit_char(n)]
    } else {
        decimal(n / 10) + seq![digit_char(n % 10)]
    }
}

/// The message that describes an error.
pub open spec fn message_text(error: IndicatorError) -> Seq<char> {
    match error {
        IndicatorError::InvalidPeriod => "period must be greater than zero"@,
        IndicatorError::InvalidParameter(name) => "invalid parameter: "@ + name@,
        IndicatorError::LengthMismatch { input, expected, actual } => "input '"@ + input@ + "' has length "@
            + decimal(actual as nat) + ", expected "@ + decimal(expected as nat),
    }
}

fn digit_str(d: usize) -> (text: &'static str)
    requires
        d < 10,
    ensures
        text@ == seq![digit_char(d as nat)],
{
    proof {
        reveal_strlit("0");
        reveal_strlit("1");
        reveal_strlit("2");
        reveal_strlit("3");
        reveal_strlit("4");
        reveal_strlit("5");
        reveal_strlit("6");
        reveal_strlit("7");
        reveal_strlit("8");
        reveal_strlit("9");
    }
    match d {
        0 => "0",
        1 => "1",
        2 => "2",
        3 => "3",
        4 => "4",
        5 => "5",
        6 => "6",
        7 => "7",
        8 => "8",
        _ => "9",
    }
}

fn append_decimal(text: &mut String, n: usize)
    ensures
        final(text)@ == old(text)@ + decimal(n as nat),
    decreases n,
{
    if n >= 10 {
        append_decimal(text, n / 10);
    }
    text.append(digit_str(n % 10));
}

impl IndicatorError {
    /// A human-readable description of the error.
    pub fn message(&self) -> (text: String)
        ensures
            text@ == message_text(*self),
    {
        match self {
            IndicatorError::InvalidPeriod => String::from_str("period must be greater than zero"),
            IndicatorError::InvalidParameter(name) => {
                let mut text = String::from_str("invalid parameter: ");
                text.append(name);
                text
            },
            IndicatorError::LengthMismatch { input, expected, actual } => {
                let mut text = String::from_str("input '");
                text.append(input);
                text.append("' has length ");
                append_decimal(&mut text, *actual);
                text.append(", expected ");
                append_decimal(&mut text, *expected);
                text
            },
        }
    }
}

} // verus!
