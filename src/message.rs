//! Diagnostic records and their conversion from the named groups of a match.
use vstd::prelude::*;
use vstd::string::StrSliceExecFns;
use crate::error::{CompmodeError, ErrorView};
use crate::number::{parse_usize, parse_usize_exec};
use crate::pattern::{Pattern, regex_group};

verus! {

/// Group whose text gives the severity ("error" or "warning").
pub const GROUP_TYPE: &'static str = "type";

/// Group whose mere presence marks the match as an error.
pub const GROUP_TYPE_ERROR: &'static str = "type_error";

/// Group holding the diagnostic text.
pub const GROUP_MSG: &'static str = "msg";

/// Group holding the file path.
pub const GROUP_FILE: &'static str = "file";

/// Group holding the line number.
pub const GROUP_LINE: &'static str = "line";

/// Group holding the column number.
pub const GROUP_COL: &'static str = "col";

/// One reported error or warning.
#[derive(Debug)]
pub struct Message {
    pub is_error: bool,
    pub msg: String,
    pub file: String,
    pub line: Option<usize>,
    pub column: Option<usize>,
    /// Half-open byte range of the whole match within the stream.
    pub span: (usize, usize),
}

/// The mathematical value of a `Message`.
pub struct MessageView {
    pub is_error: bool,
    pub msg: Seq<char>,
    pub file: Seq<char>,
    pub line: Option<usize>,
    pub column: Option<usize>,
    pub span: (int, int),
}

impl View for Message {
    type V = MessageView;

    open spec fn view(&self) -> MessageView {
        MessageView {
            is_error: self.is_error,
            msg: self.msg@,
            file: self.file@,
            line: self.line,
            column: self.column,
            span: (self.span.0 as int, self.span.1 as int),
        }
    }
}

/// Two records are the same diagnostic when they cover the same bytes and point at the
/// same line and column; text and severity are not compared.
pub open spec fn same_location(a: MessageView, b: MessageView) -> bool {
    a.span == b.span && a.line == b.line && a.column == b.column
}

impl PartialEq for Message {
    fn eq(&self, other: &Message) -> (r: bool)
        ensures
            r == same_location(self@, other@),
    {
        self.span.0 == other.span.0 && self.span.1 == other.span.1 && self.line == other.line
            && self.column == other.column
    }
}

impl vstd::std_specs::cmp::PartialEqSpecImpl for Message {
    open spec fn obeys_eq_spec() -> bool {
        true
    }

    open spec fn eq_spec(&self, other: &Message) -> bool {
        same_location(self@, other@)
    }
}

/// The named groups of one match, as the conversion reads them.
pub struct Groups {
    pub kind: Option<String>,
    pub error_marker: bool,
    pub msg: Option<String>,
    pub file: Option<String>,
    pub line: Option<String>,
    pub col: Option<String>,
}

/// The mathematical value of `Groups`.
pub struct GroupsView {
    pub kind: Option<Seq<char>>,
    pub error_marker: bool,
    pub msg: Option<Seq<char>>,
    pub file: Option<Seq<char>>,
    pub line: Option<Seq<char>>,
    pub col: Option<Seq<char>>,
}

pub open spec fn opt_view(o: Option<String>) -> Option<Seq<char>> {
    match o {
        Some(s) => Some(s@),
        None => None,
    }
}

impl View for Groups {
    type V = GroupsView;

    open spec fn view(&self) -> GroupsView {
        GroupsView {
            kind: opt_view(self.kind),
            error_marker: self.error_marker,
            msg: opt_view(self.msg),
            file: opt_view(self.file),
            line: opt_view(self.line),
            col: opt_view(self.col),
        }
    }
}

/// The groups that the pattern `source` captures in its first match in `haystack`.
pub open spec fn groups_of(source: Seq<char>, haystack: Seq<char>) -> GroupsView {
    GroupsView {
        kind: regex_group(source, haystack, GROUP_TYPE@),
        error_marker: regex_group(source, haystack, GROUP_TYPE_ERROR@) is Some,
        msg: regex_group(source, haystack, GROUP_MSG@),
        file: regex_group(source, haystack, GROUP_FILE@),
        line: regex_group(source, haystack, GROUP_LINE@),
        col: regex_group(source, haystack, GROUP_COL@),
    }
}

/// `s` equals "error" when compared without regard to ASCII case.
pub open spec fn is_error_word(s: Seq<char>) -> bool {
    &&& s.len() == 5
    &&& (s[0] == 'e' || s[0] == 'E')
    &&& (s[1] == 'r' || s[1] == 'R')
    &&& (s[2] == 'r' || s[2] == 'R')
    &&& (s[3] == 'o' || s[3] == 'O')
    &&& (s[4] == 'r' || s[4] == 'R')
}

pub open spec fn severity_is_error(g: GroupsView) -> bool {
    (g.kind matches Some(k) && is_error_word(k)) || g.error_marker
}

/// An optional number group: absent stays absent, present text must parse.
pub open spec fn number_ok(t: Option<Seq<char>>) -> bool {
    t matches Some(s) ==> parse_usize(s) is Some
}

pub open spec fn number_of(t: Option<Seq<char>>) -> Option<usize> {
    match t {
        Some(s) => parse_usize(s),
        None => None,
    }
}

/// The record, or the reason there is none, for a match of `pattern` with groups `g`
/// covering the stream bytes `span`.
pub open spec fn convert(pattern: Seq<char>, g: GroupsView, span: (int, int)) -> Result<
    MessageView,
    ErrorView,
> {
    if g.msg is None {
        Err(ErrorView::MissingCapture { group: GROUP_MSG@, pattern })
    } else if g.file is None {
        Err(ErrorView::MissingCapture { group: GROUP_FILE@, pattern })
    } else if !number_ok(g.line) {
        Err(ErrorView::MalformedNumber { group: GROUP_LINE@, pattern })
    } else if !number_ok(g.col) {
        Err(ErrorView::MalformedNumber { group: GROUP_COL@, pattern })
    } else {
        Ok(
            MessageView {
                is_error: severity_is_error(g),
                msg: g.msg->0,
                file: g.file->0,
                line: number_of(g.line),
                column: number_of(g.col),
                span,
            },
        )
    }
}

pub open spec fn result_view(r: Result<Message, CompmodeError>) -> Result<MessageView, ErrorView> {
    match r {
        Ok(m) => Ok(m@),
        Err(e) => Err(e@),
    }
}

/// Case-insensitive (ASCII) comparison with "error".
fn is_error_text(s: &str) -> (r: bool)
    ensures
        r == is_error_word(s@),
{
    if s.unicode_len() != 5 {
        return false;
    }
    let c0 = s.get_char(0);
    let c1 = s.get_char(1);
    let c2 = s.get_char(2);
    let c3 = s.get_char(3);
    let c4 = s.get_char(4);
    (c0 == 'e' || c0 == 'E') && (c1 == 'r' || c1 == 'R') && (c2 == 'r' || c2 == 'R') && (c3
        == 'o' || c3 == 'O') && (c4 == 'r' || c4 == 'R')
}

/// An optional number group read as a number: `None` where present text does not parse.
fn read_number(t: &Option<String>) -> (r: Option<Option<usize>>)
    ensures
        r is Some <==> number_ok(opt_view(*t)),
        r matches Some(n) ==> n == number_of(opt_view(*t)),
{
    match t {
        Some(s) => match parse_usize_exec(s.as_str()) {
            Some(n) => Some(Some(n)),
            None => None,
        },
        None => Some(None),
    }
}

impl Message {
    /// Builds the record for a match of `pattern` whose named groups are `groups` and
    /// which covers the stream bytes `span`.
    pub fn from_groups(pattern: &str, groups: Groups, span: (usize, usize)) -> (r: Result<
        Message,
        CompmodeError,
    >)
        ensures
            result_view(r) == convert(pattern@, groups@, (span.0 as int, span.1 as int)),
    {
        let is_error = match &groups.kind {
            Some(k) => is_error_text(k.as_str()),
            None => false,
        } || groups.error_marker;
        let msg = match groups.msg {
            Some(m) => m,
            None => {
                return Err(
                    CompmodeError::MissingCapture {
                        group: String::from_str(GROUP_MSG),
                        pattern: String::from_str(pattern),
                    },
                )
            },
        };
        let file = match groups.file {
            Some(f) => f,
            None => {
                return Err(
                    CompmodeError::MissingCapture {
                        group: String::from_str(GROUP_FILE),
                        pattern: String::from_str(pattern),
                    },
                )
            },
        };
        let line = match read_number(&groups.line) {
            Some(n) => n,
            None => {
                return Err(
                    CompmodeError::MalformedNumber {
                        group: String::from_str(GROUP_LINE),
                        pattern: String::from_str(pattern),
                    },
                )
            },
        };
        let column = match read_number(&groups.col) {
            Some(n) => n,
            None => {
                return Err(
                    CompmodeError::MalformedNumber {
                        group: String::from_str(GROUP_COL),
                        pattern: String::from_str(pattern),
                    },
                )
            },
        };
        Ok(Message { is_error, msg, file, line, column, span })
    }

    /// Reads the named groups of the first match of `pattern` in `haystack` and converts
    /// them; `span` is where that match lies in the stream.
    pub fn try_from(pattern: &Pattern, haystack: &str, span: (usize, usize)) -> (r: Result<
        Message,
        CompmodeError,
    >)
        ensures
            result_view(r) == convert(
                pattern@,
                groups_of(pattern@, haystack@),
                (span.0 as int, span.1 as int),
            ),
    {
        let groups = Groups {
            kind: pattern.group(haystack, GROUP_TYPE),
            error_marker: pattern.group(haystack, GROUP_TYPE_ERROR).is_some(),
            msg: pattern.group(haystack, GROUP_MSG),
            file: pattern.group(haystack, GROUP_FILE),
            line: pattern.group(haystack, GROUP_LINE),
            col: pattern.group(haystack, GROUP_COL),
        };
        Message::from_groups(pattern.source(), groups, span)
    }
}

} // verus!
