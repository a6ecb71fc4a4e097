//! The report of one run: the command, where it ran, what it printed and how it ended.
use vstd::prelude::*;
use crate::matcher::records_view;
use crate::message::{Message, MessageView};

verus! {

/// Everything known about one run of a wrapped command.
#[derive(Debug)]
pub struct Report {
    pub command: Vec<String>,
    pub root_directory: String,
    pub messages: Vec<Message>,
    pub exit_code: i32,
}

/// Column names of the separated-values rendering, in order.
pub const COLUMN_IS_ERROR: &'static str = "is_error";

pub const COLUMN_MSG: &'static str = "msg";

pub const COLUMN_FILE: &'static str = "file";

pub const COLUMN_LINE: &'static str = "line";

pub const COLUMN_COLUMN: &'static str = "column";

/// Starts each message's row.
pub const ROW_BREAK: &'static str = "\n";

/// Severity cells.
pub const CELL_ERROR: &'static str = "1";

pub const CELL_WARNING: &'static str = "0";

pub const DIGITS: [&'static str; 10] = ["0", "1", "2", "3", "4", "5", "6", "7", "8", "9"];

pub open spec fn digit_char(d: int) -> char {
    seq!['0', '1', '2', '3', '4', '5', '6', '7', '8', '9'][d]
}

/// Base-10 digits of `n`, most significant first, without leading zeros.
pub open spec fn decimal(n: nat) -> Seq<char>
    decreases n,
{
    if n < 10 {
        seq![digit_char(n as int)]
    } else {
        decimal(n / 10) + seq![digit_char((n % 10) as int)]
    }
}

/// An optional number: its digits, or nothing.
pub open spec fn opt_decimal(n: Option<usize>) -> Seq<char> {
    match n {
        Some(v) => decimal(v as nat),
        None => Seq::empty(),
    }
}

pub open spec fn csv_header(sep: Seq<char>) -> Seq<char> {
    COLUMN_IS_ERROR@ + sep + COLUMN_MSG@ + sep + COLUMN_FILE@ + sep + COLUMN_LINE@ + sep
        + COLUMN_COLUMN@
}

pub open spec fn csv_row(m: MessageView, sep: Seq<char>) -> Seq<char> {
    ROW_BREAK@ + (if m.is_error {
        CELL_ERROR@
    } else {
        CELL_WARNING@
    }) + sep + m.msg + sep + m.file + sep + opt_decimal(m.line) + sep + opt_decimal(m.column)
}

/// The rows of `ms`, in order.
pub open spec fn csv_rows(ms: Seq<MessageView>, sep: Seq<char>) -> Seq<char>
    decreases ms.len(),
{
    if ms.len() == 0 {
        Seq::empty()
    } else {
        csv_rows(ms.drop_last(), sep) + csv_row(ms.last(), sep)
    }
}

proof fn lemma_digit_strings()
    ensures
        forall|d: int| 0 <= d < 10 ==> (#[trigger] DIGITS@[d])@ == seq![digit_char(d)],
{
    reveal_strlit("0");
    reveal_strlit("1");
    reveal_strlit("2");
    reveal_strlit("3");
    reveal_strlit("4");
    reveal_strlit("5");
    reveal_strlit("6");
    reveal_strlit("7");
    reveal_strlit("8");
    reveal_strlit("9");
    assert forall|d: int| 0 <= d < 10 implies (#[trigger] DIGITS@[d])@ == seq![digit_char(d)] by {
        if d == 0 {
            assert(DIGITS@[d]@ =~= seq!['0']);
        } else if d == 1 {
            assert(DIGITS@[d]@ =~= seq!['1']);
        } else if d == 2 {
            assert(DIGITS@[d]@ =~= seq!['2']);
        } else if d == 3 {
            assert(DIGITS@[d]@ =~= seq!['3']);
        } else if d == 4 {
            assert(DIGITS@[d]@ =~= seq!['4']);
        } else if d == 5 {
            assert(DIGITS@[d]@ =~= seq!['5']);
        } else if d == 6 {
            assert(DIGITS@[d]@ =~= seq!['6']);
        } else if d == 7 {
            assert(DIGITS@[d]@ =~= seq!['7']);
        } else if d == 8 {
            assert(DIGITS@[d]@ =~= seq!['8']);
        } else {
            assert(DIGITS@[d]@ =~= seq!['9']);
        }
    }
}

/// Appends the base-10 digits of `n`.
pub fn push_decimal(output: &mut String, n: usize)
    ensures
        final(output)@ == old(output)@ + decimal(n as nat),
    decreases n,
{
    if n >= 10 {
        push_decimal(output, n / 10);
    }
    proof {
        lemma_digit_strings();
    }
    output.append(DIGITS[n % 10]);
}

/// Appends the optional number's digits.
fn push_opt_decimal(output: &mut String, n: Option<usize>)
    ensures
        final(output)@ == old(output)@ + opt_decimal(n),
{
    match n {
        Some(v) => push_decimal(output, v),
        None => {
            assert(old(output)@ + opt_decimal(n) =~= old(output)@);
        },
    }
}

/// Appends the row of one message.
fn push_row(output: &mut String, msg: &Message, separator: &str)
    ensures
        final(output)@ == old(output)@ + csv_row(msg@, separator@),
{
    output.append(ROW_BREAK);
    if msg.is_error {
        output.append(CELL_ERROR);
    } else {
        output.append(CELL_WARNING);
    }
    output.append(separator);
    output.append(msg.msg.as_str());
    output.append(separator);
    output.append(msg.file.as_str());
    output.append(separator);
    push_opt_decimal(output, msg.line);
    output.append(separator);
    push_opt_decimal(output, msg.column);
    assert(output@ =~= old(output)@ + csv_row(msg@, separator@));
}

impl Report {
    /// Appends the messages as separated values: a header row, then one row per message
    /// with severity (`1` for errors), text, file, line and column.
    pub fn format_csv(&self, separator: &str, output: &mut String)
        ensures
            final(output)@ == old(output)@ + csv_header(separator@) + csv_rows(
                records_view(self.messages@),
                separator@,
            ),
    {
        output.append(COLUMN_IS_ERROR);
        output.append(separator);
        output.append(COLUMN_MSG);
        output.append(separator);
        output.append(COLUMN_FILE);
        output.append(separator);
        output.append(COLUMN_LINE);
        output.append(separator);
        output.append(COLUMN_COLUMN);
        let ghost start = output@;
        let ghost all = records_view(self.messages@);
        assert(start == old(output)@ + csv_header(separator@));
        let mut i: usize = 0;
        while i < self.messages.len()
            invariant
                i <= self.messages@.len(),
                all == records_view(self.messages@),
                output@ == start + csv_rows(all.take(i as int), separator@),
            decreases self.messages@.len() - i,
        {
            let msg = &self.messages[i];
            push_row(output, msg, separator);
            proof {
                assert(all.take(i + 1).drop_last() =~= all.take(i as int));
                assert(all.take(i + 1).last() == msg@);
            }
            i = i + 1;
        }
        assert(all.take(self.messages@.len() as int) =~= all);
    }
}

} // verus!
