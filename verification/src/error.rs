//! Runtime error reports.
//!
//! An error carries the source location that raised it and a message. The
//! debug rendering `[file::line::column]>>message` is built here character by
//! character, with the decimal rendering of the line and column numbers
//! specified exactly.

use vstd::prelude::*;
use vstd::string::*;

verus! {

/// The decimal digit character for `d`.
pub open spec fn digit_char(d: int) -> char {
    if d == 0 {
        '0'
    } else if d == 1 {
        '1'
    } else if d == 2 {
        '2'
    } else if d == 3 {
        '3'
    } else if d == 4 {
        '4'
    } else if d == 5 {
        '5'
    } else if d == 6 {
        '6'
    } else if d == 7 {
        '7'
    } else if d == 8 {
        '8'
    } else {
        '9'
    }
}

/// The decimal rendering of a non-negative number, most significant digit
/// first.
pub open spec fn dec_rep(n: int) -> Seq<char>
    decreases n,
{
    if n < 10 {
        seq![digit_char(n)]
    } else {
        dec_rep(n / 10).push(digit_char(n % 10))
    }
}

/// The rendering produced by [`RuntimeError::debug_info`].
pub open spec fn debug_info_rep(
    file: Seq<char>,
    line: u32,
    column: u32,
    message: Seq<char>,
) -> Seq<char> {
    seq!['[']
        + file
        + seq![':', ':']
        + dec_rep(line as int)
        + seq![':', ':']
        + dec_rep(column as int)
        + seq![']', '>', '>']
        + message
}

/// Appends the decimal digit `d` to `s`.
fn push_digit(s: &mut String, d: u32)
    requires
        d < 10,
    ensures
        final(s)@ == old(s)@.push(digit_char(d as int)),
{
    let ds: &str = if d == 0 {
        "0"
    } else if d == 1 {
        "1"
    } else if d == 2 {
        "2"
    } else if d == 3 {
        "3"
    } else if d == 4 {
        "4"
    } else if d == 5 {
        "5"
    } else if d == 6 {
        "6"
    } else if d == 7 {
        "7"
    } else if d == 8 {
        "8"
    } else {
        "9"
    };
    proof {
        reveal_strlit("0");
        reveal_strlit("1");
        reveal_strlit("2");
        reveal_strlit("3");
        reveal_strlit("4");
        reveal_strlit("5");
        reveal_strlit("6");
        reveal_strlit("7");
        reveal_strlit("8");
        reveal_strlit("9");
    }
    s.append(ds);
    proof {
        assert(final(s)@ =~= old(s)@.push(digit_char(d as int)));
    }
}

/// Renders `n` in decimal.
pub fn u32_to_decimal(n: u32) -> (r: String)
    ensures
        r@ == dec_rep(n as int),
    decreases n,
{
    if n < 10 {
        let mut s = String::new();
        push_digit(&mut s, n);
        proof {
            assert(s@ =~= dec_rep(n as int));
        }
        s
    } else {
        let mut s = u32_to_decimal(n / 10);
        push_digit(&mut s, n % 10);
        s
    }
}

/// An error report carrying the source location that raised it and a
/// human-readable message.
#[derive(Debug, Clone, PartialEq, Eq)]
pub struct RuntimeError {
    file: &'static str,
    line: u32,
    column: u32,
    message: String,
}

impl RuntimeError {
    /// The file recorded in this report.
    pub closed spec fn spec_file(&self) -> Seq<char> {
        self.file@
    }

    /// The line recorded in this report.
    pub closed spec fn spec_line(&self) -> u32 {
        self.line
    }

    /// The column recorded in this report.
    pub closed spec fn spec_column(&self) -> u32 {
        self.column
    }

    /// The message recorded in this report.
    pub closed spec fn spec_message(&self) -> Seq<char> {
        self.message@
    }

    pub fn new(file: &'static str, line: u32, column: u32, message: String) -> (r: Self)
        ensures
            r.spec_file() == file@,
            r.spec_line() == line,
            r.spec_column() == column,
            r.spec_message() == message@,
    {
        Self { file, line, column, message }
    }

    pub fn what(&self) -> (r: &str)
        ensures
            r@ == self.spec_message(),
    {
        self.message.as_str()
    }

    pub fn debug_info(&self) -> (r: String)
        ensures
            r@ == debug_info_rep(
                self.spec_file(),
                self.spec_line(),
                self.spec_column(),
                self.spec_message(),
            ),
    {
        let mut s = String::new();
        proof {
            reveal_strlit("[");
            reveal_strlit("::");
            reveal_strlit("]>>");
        }
        s.append("[");
        s.append(self.file);
        s.append("::");
        let line_str = u32_to_decimal(self.line);
        s.append(line_str.as_str());
        s.append("::");
        let column_str = u32_to_decimal(self.column);
        s.append(column_str.as_str());
        s.append("]>>");
        s.append(self.message.as_str());
        proof {
            assert(s@ =~= debug_info_rep(
                self.spec_file(),
                self.spec_line(),
                self.spec_column(),
                self.spec_message(),
            ));
        }
        s
    }
}

} // verus!
