//! Options of a run and the output formats.
use vstd::prelude::*;

verus! {

/// How a finished report is rendered.
#[derive(Copy, Clone, PartialEq, Eq, PartialOrd, Ord, Debug)]
pub enum Format {
    /// Format meant for testing
    Debug,
    JSON,
    /// CSV but with the separator being `\0`; header and messages are printed
    NullSep,
}

pub open spec fn format_name(f: Format) -> Seq<char> {
    match f {
        Format::Debug => seq!['d', 'e', 'b', 'u', 'g'],
        Format::JSON => seq!['j', 's', 'o', 'n'],
        Format::NullSep => seq!['n', 'u', 'l', 'l', 's', 'e', 'p'],
    }
}

impl Format {
    /// The lower-case name of the variant.
    pub fn to_string(&self) -> (r: String)
        ensures
            r@ == format_name(*self),
    {
        match self {
            Format::Debug => {
                proof { reveal_strlit("debug"); }
                String::from_str("debug")
            },
            Format::JSON => {
                proof { reveal_strlit("json"); }
                String::from_str("json")
            },
            Format::NullSep => {
                proof { reveal_strlit("nullsep"); }
                String::from_str("nullsep")
            },
        }
    }
}

/// The options of one run.
pub struct Cli {
    /// How the report is rendered.
    pub format: Format,
    /// Print nothing but the command's own output and the report.
    pub quiet: bool,
    /// Pattern group to use: a group name, "all" or "auto".
    pub regex_group: String,
    /// The command to run and its arguments.
    pub command: Vec<String>,
}

} // verus!
