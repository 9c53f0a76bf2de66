//! How refusals and answers read in a log line: as prose rather than as a
//! variant name.
use vstd::prelude::*;
use vstd::string::StringExecFns;

use crate::response::{AnalysisFailure, Rejected, Response};

verus! {

/// The character of a decimal digit.
pub open spec fn digit_char(d: nat) -> char {
    if d == 0 {
        '0'
    } else if d == 1 {
        '1'
    } else if d == 2 {
        '2'
    } else if d == 3 {
        '3'
    } else if d == 4 {
        '4'
    } else if d == 5 {
        '5'
    } else if d == 6 {
        '6'
    } else if d == 7 {
        '7'
    } else if d == 8 {
        '8'
    } else {
        '9'
    }
}

/// `n` written in decimal, without leading zeros.
pub open spec fn decimal(n: nat) -> Seq<char>
    decreases n,
{
    if n < 10 {
        seq![digit_char(n)]
    } else {
        decimal(n / 10).push(digit_char(n % 10))
    }
}

/// How a refusal reads.
pub open spec fn failure_text(f: AnalysisFailure) -> Seq<char> {
    match f {
        AnalysisFailure::NonConvergent => "utilisation exceeds one; no fixed point exists"@,
        AnalysisFailure::IterationLimit => "the recurrence did not settle within the iteration cap"@,
        AnalysisFailure::BusyPeriodLimit =>
            "the busy period is bounded but holds more jobs than the cap admits"@,
        AnalysisFailure::ExceedsDeadline(r) => "converges at "@ + decimal(r as nat)
            + " us, past the deadline"@,
        AnalysisFailure::Overflow => "the arithmetic overflowed and was refused"@,
        AnalysisFailure::NoSuchTask => "no task at that index"@,
    }
}

/// How an answer reads: a bound in microseconds, or its refusal.
pub open spec fn response_text(r: Response) -> Seq<char> {
    match r {
        Response::Bounded(b) => decimal(b as nat) + " us"@,
        Response::Refused(why) => failure_text(why),
    }
}

/// How a refused admission reads.
pub open spec fn rejected_text(r: Rejected) -> Seq<char> {
    match r {
        Rejected::Full => "the task set is full"@,
        Rejected::ZeroPeriod => "a period of zero is not a period"@,
        Rejected::ExecutionExceedsDeadline =>
            "execution time exceeds the deadline; no scheduling fixes that"@,
    }
}

/// The one-character string of a decimal digit.
fn digit_str(d: u64) -> (s: &'static str)
    requires
        d < 10,
    ensures
        s@ == seq![digit_char(d as nat)],
{
    proof {
        reveal_strlit("0");
        reveal_strlit("1");
        reveal_strlit("2");
        reveal_strlit("3");
        reveal_strlit("4");
        reveal_strlit("5");
        reveal_strlit("6");
        reveal_strlit("7");
        reveal_strlit("8");
        reveal_strlit("9");
    }
    match d {
        0 => "0",
        1 => "1",
        2 => "2",
        3 => "3",
        4 => "4",
        5 => "5",
        6 => "6",
        7 => "7",
        8 => "8",
        _ => "9",
    }
}

/// Append `n` in decimal.
fn push_decimal(s: &mut String, n: u64)
    ensures
        final(s)@ == old(s)@ + decimal(n as nat),
    decreases n,
{
    if n >= 10 {
        push_decimal(s, n / 10);
    }
    s.append(digit_str(n % 10));
    proof {
        if n < 10 {
            assert(final(s)@ =~= old(s)@ + decimal(n as nat));
        }
    }
}

/// `n` in decimal.
fn decimal_string(n: u64) -> (s: String)
    ensures
        s@ == decimal(n as nat),
{
    let mut s = String::new();
    push_decimal(&mut s, n);
    proof {
        assert(s@ =~= decimal(n as nat));
    }
    s
}

impl AnalysisFailure {
    /// What this refusal means, as a sentence fragment.
    pub fn describe(&self) -> (s: String)
        ensures
            s@ == failure_text(*self),
    {
        match self {
            AnalysisFailure::NonConvergent => String::from_str(
                "utilisation exceeds one; no fixed point exists",
            ),
            AnalysisFailure::IterationLimit => String::from_str(
                "the recurrence did not settle within the iteration cap",
            ),
            AnalysisFailure::BusyPeriodLimit => String::from_str(
                "the busy period is bounded but holds more jobs than the cap admits",
            ),
            AnalysisFailure::ExceedsDeadline(r) => {
                let mut s = String::from_str("converges at ");
                s.append(decimal_string(*r).as_str());
                s.append(" us, past the deadline");
                s
            },
            AnalysisFailure::Overflow => String::from_str(
                "the arithmetic overflowed and was refused",
            ),
            AnalysisFailure::NoSuchTask => String::from_str("no task at that index"),
        }
    }
}

impl Response {
    /// The bound in microseconds, or why there is none.
    pub fn describe(&self) -> (s: String)
        ensures
            s@ == response_text(*self),
    {
        match self {
            Response::Bounded(r) => {
                let mut s = decimal_string(*r);
                s.append(" us");
                s
            },
            Response::Refused(why) => why.describe(),
        }
    }
}

impl Rejected {
    /// Why the task was refused, as a sentence fragment.
    pub fn describe(&self) -> (s: String)
        ensures
            s@ == rejected_text(*self),
    {
        match self {
            Rejected::Full => String::from_str("the task set is full"),
            Rejected::ZeroPeriod => String::from_str("a period of zero is not a period"),
            Rejected::ExecutionExceedsDeadline => String::from_str(
                "execution time exceeds the deadline; no scheduling fixes that",
            ),
        }
    }
}

} // verus!
