//! What can go wrong inside the engine.

use vstd::prelude::*;
use crate::ident::{hyphenated, id_text};

verus! {

/// How a process ended: its exit code, or none if a signal ended it.
#[derive(Clone, Copy, Debug, PartialEq, Eq)]
pub struct ExitStatus {
    pub code: Option<i32>,
}

impl ExitStatus {
    /// A process succeeded if it exited with code zero.
    pub open spec fn is_success(self) -> bool {
        self.code == Some(0i32)
    }

    /// Whether the process exited with code zero.
    pub fn success(&self) -> (r: bool)
        ensures
            r == self.is_success(),
    {
        match self.code {
            Some(code) => code == 0,
            None => false,
        }
    }
}

/// The character of a decimal digit.
pub open spec fn digit(value: nat) -> char {
    if value == 0 {
        '0'
    } else if value == 1 {
        '1'
    } else if value == 2 {
        '2'
    } else if value == 3 {
        '3'
    } else if value == 4 {
        '4'
    } else if value == 5 {
        '5'
    } else if value == 6 {
        '6'
    } else if value == 7 {
        '7'
    } else if value == 8 {
        '8'
    } else {
        '9'
    }
}

/// The decimal digits of a natural number, without leading zeros.
pub open spec fn digits(value: nat) -> Seq<char>
    decreases value,
{
    if value < 10 {
        seq![digit(value)]
    } else {
        digits(value / 10).push(digit(value % 10))
    }
}

/// The decimal text of a number, with a minus sign where it is negative.
pub open spec fn decimal(n: i32) -> Seq<char> {
    if n < 0 {
        seq!['-'] + digits((-n) as nat)
    } else {
        digits(n as nat)
    }
}

/// The text of one decimal digit.
fn digit_text(value: u32) -> (text: &'static str)
    requires
        value < 10,
    ensures
        text@ == seq![digit(value as nat)],
{
    proof {
        reveal_strlit("0");
        reveal_strlit("1");
        reveal_strlit("2");
        reveal_strlit("3");
        reveal_strlit("4");
        reveal_strlit("5");
        reveal_strlit("6");
        reveal_strlit("7");
        reveal_strlit("8");
        reveal_strlit("9");
    }
    let text = if value == 0 {
        "0"
    } else if value == 1 {
        "1"
    } else if value == 2 {
        "2"
    } else if value == 3 {
        "3"
    } else if value == 4 {
        "4"
    } else if value == 5 {
        "5"
    } else if value == 6 {
        "6"
    } else if value == 7 {
        "7"
    } else if value == 8 {
        "8"
    } else {
        "9"
    };
    assert(text@ =~= seq![digit(value as nat)]);
    text
}

/// Writes a natural number in decimal.
fn digits_text(value: u32) -> (text: String)
    ensures
        text@ == digits(value as nat),
    decreases value,
{
    if value < 10 {
        String::from_str(digit_text(value))
    } else {
        let text = digits_text(value / 10).concat(digit_text(value % 10));
        assert(text@ =~= digits(value as nat));
        text
    }
}

/// Writes a number in decimal.
pub fn number_text(n: i32) -> (text: String)
    ensures
        text@ == decimal(n),
{
    if n < 0 {
        proof {
            reveal_strlit("-");
        }
        let size: u32 = if n == i32::MIN {
            2147483648u32
        } else {
            (-n) as u32
        };
        let number = digits_text(size);
        let text = String::from_str("-").concat(number.as_str());
        assert(text@ =~= decimal(n));
        text
    } else {
        digits_text(n as u32)
    }
}

/// An engine error.
#[derive(Clone, Copy, Debug, PartialEq, Eq)]
pub enum Error {
    NotImplemented,
    /// Spawning the process or waiting for it failed; the operating
    /// system's error number, where it gave one.
    CommandFailed(Option<i32>),
    /// The process ran and did not exit with code zero.
    ExitFailure(ExitStatus),
    PlanNotFound(u128),
    TaskNotFound(u128),
    /// A task failed because this child of it did.
    TaskFailed(u128),
    /// A newly drawn identifier already names something in the store.
    IdInUse(u128),
}

impl Error {
    /// The text of the error.
    pub open spec fn text(self) -> Seq<char> {
        match self {
            Error::NotImplemented => "Not implemented"@,
            Error::CommandFailed(None) => "Command failed"@,
            Error::CommandFailed(Some(errno)) => "Command failed: os error "@ + decimal(errno),
            Error::ExitFailure(status) => match status.code {
                Some(code) => "Command failed with exit status: "@ + decimal(code),
                None => "Command failed with exit status: signal"@,
            },
            Error::PlanNotFound(id) => "Plan not found: "@ + hyphenated(id),
            Error::TaskNotFound(id) => "Task not found: "@ + hyphenated(id),
            Error::TaskFailed(id) => "Task failed: "@ + hyphenated(id),
            Error::IdInUse(id) => "Identifier in use: "@ + hyphenated(id),
        }
    }

    /// Describes the error in words.
    pub fn describe(&self) -> (r: String)
        ensures
            r@ == self.text(),
    {
        match self {
            Error::NotImplemented => String::from_str("Not implemented"),
            Error::CommandFailed(None) => String::from_str("Command failed"),
            Error::CommandFailed(Some(errno)) => {
                let number = number_text(*errno);
                String::from_str("Command failed: os error ").concat(number.as_str())
            },
            Error::ExitFailure(status) => match status.code {
                Some(code) => {
                    let number = number_text(code);
                    String::from_str("Command failed with exit status: ").concat(number.as_str())
                },
                None => String::from_str("Command failed with exit status: signal"),
            },
            Error::PlanNotFound(id) => {
                let name = id_text(*id);
                String::from_str("Plan not found: ").concat(name.as_str())
            },
            Error::TaskNotFound(id) => {
                let name = id_text(*id);
                String::from_str("Task not found: ").concat(name.as_str())
            },
            Error::TaskFailed(id) => {
                let name = id_text(*id);
                String::from_str("Task failed: ").concat(name.as_str())
            },
            Error::IdInUse(id) => {
                let name = id_text(*id);
                String::from_str("Identifier in use: ").concat(name.as_str())
            },
        }
    }
}

} // verus!
