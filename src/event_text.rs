use vstd::prelude::*;
use vstd::string::*;
use crate::line::{Origin, OutputLine};
use crate::supervisor::LifecycleEvent;

verus! {

pub open spec fn digit_char(d: nat) -> char {
    if d == 0 {
        '0'
    } else if d == 1 {
        '1'
    } else if d == 2 {
        '2'
    } else if d == 3 {
        '3'
    } else if d == 4 {
        '4'
    } else if d == 5 {
        '5'
    } else if d == 6 {
        '6'
    } else if d == 7 {
        '7'
    } else if d == 8 {
        '8'
    } else {
        '9'
    }
}

/// The decimal digits of a natural number, most significant first.
pub open spec fn digits_of(n: nat) -> Seq<char>
    decreases n,
{
    if n < 10 {
        seq![digit_char(n)]
    } else {
        digits_of(n / 10).push(digit_char(n % 10))
    }
}

/// An integer written in decimal, with a minus sign when negative.
pub open spec fn decimal_of(n: int) -> Seq<char> {
    if n < 0 {
        seq!['-'] + digits_of((-n) as nat)
    } else {
        digits_of(n as nat)
    }
}

/// The text of the line that reports a lifecycle event.
pub open spec fn describe_spec(e: LifecycleEvent) -> Seq<char> {
    match e {
        LifecycleEvent::Exited { code } => "backend exited with code "@ + decimal_of(code as int),
        LifecycleEvent::Signalled { signal } => "backend terminated by signal "@ + decimal_of(
            signal as int,
        ),
        LifecycleEvent::Ended => "backend exited with an unknown status"@,
        LifecycleEvent::Killed => "backend killed on request"@,
        LifecycleEvent::WaitFailed { reason } => "failed to wait for backend: "@ + reason@,
    }
}

fn digit_str(d: u32) -> (r: &'static str)
    requires
        d < 10,
    ensures
        r@ == seq![digit_char(d as nat)],
{
    proof {
        reveal_strlit("0");
        reveal_strlit("1");
        reveal_strlit("2");
        reveal_strlit("3");
        reveal_strlit("4");
        reveal_strlit("5");
        reveal_strlit("6");
        reveal_strlit("7");
        reveal_strlit("8");
        reveal_strlit("9");
    }
    if d == 0 {
        "0"
    } else if d == 1 {
        "1"
    } else if d == 2 {
        "2"
    } else if d == 3 {
        "3"
    } else if d == 4 {
        "4"
    } else if d == 5 {
        "5"
    } else if d == 6 {
        "6"
    } else if d == 7 {
        "7"
    } else if d == 8 {
        "8"
    } else {
        "9"
    }
}

fn push_digits(s: &mut String, n: u32)
    ensures
        final(s)@ == old(s)@ + digits_of(n as nat),
    decreases n,
{
    if n >= 10 {
        push_digits(s, n / 10);
    }
    s.append(digit_str(n % 10));
    proof {
        if n >= 10 {
            assert(old(s)@ + digits_of((n / 10) as nat) + seq![digit_char((n % 10) as nat)] =~= old(
                s,
            )@ + digits_of(n as nat));
        } else {
            assert(old(s)@ + seq![digit_char(n as nat)] =~= old(s)@ + digits_of(n as nat));
        }
    }
}

/// Appends an integer written in decimal.
pub fn push_decimal(s: &mut String, n: i32)
    ensures
        final(s)@ == old(s)@ + decimal_of(n as int),
{
    if n < 0 {
        proof {
            reveal_strlit("-");
        }
        s.append("-");
        let magnitude: u32 = (0i64 - n as i64) as u32;
        push_digits(s, magnitude);
        assert(old(s)@ + seq!['-'] + digits_of(magnitude as nat) =~= old(s)@ + decimal_of(
            n as int,
        ));
    } else {
        push_digits(s, n as u32);
    }
}

impl LifecycleEvent {
    /// The text of the line that reports this event.
    pub fn describe(&self) -> (r: String)
        ensures
            r@ == describe_spec(*self),
    {
        match self {
            LifecycleEvent::Exited { code } => {
                let mut s = String::from_str("backend exited with code ");
                push_decimal(&mut s, *code);
                s
            },
            LifecycleEvent::Signalled { signal } => {
                let mut s = String::from_str("backend terminated by signal ");
                push_decimal(&mut s, *signal);
                s
            },
            LifecycleEvent::Ended => String::from_str("backend exited with an unknown status"),
            LifecycleEvent::Killed => String::from_str("backend killed on request"),
            LifecycleEvent::WaitFailed { reason } => {
                let mut s = String::from_str("failed to wait for backend: ");
                s.append(reason.as_str());
                s
            },
        }
    }
}

/// The line that carries a lifecycle event through the delivery channel.
pub fn lifecycle_line(e: &LifecycleEvent) -> (r: OutputLine)
    ensures
        r.origin == Origin::Lifecycle,
        r.ordinal == 0,
        r.content@ == describe_spec(*e),
{
    OutputLine::new(Origin::Lifecycle, 0, e.describe())
}

} // verus!
