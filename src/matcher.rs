//! The streaming two-line matcher: probes each line joined with its successor, converts
//! the first match into a record and keeps byte offsets into the whole stream.
use vstd::prelude::*;
use crate::error::{CompmodeError, ErrorView};
use crate::message::{convert, groups_of, Message, MessageView};
use crate::pattern::{capture_first, first_hit, PatternSet};
use crate::text::{byte_len, byte_len_exec, has_newline, lemma_encode_joined, spans_newline};

verus! {

/// The line terminator of the stream, fixed for a whole run.
#[derive(Clone, Copy, Debug, PartialEq, Eq)]
pub enum Newline {
    /// `\n`, one byte.
    Lf,
    /// `\r\n`, two bytes.
    CrLf,
}

impl Newline {
    pub open spec fn spec_len(self) -> nat {
        match self {
            Newline::Lf => 1,
            Newline::CrLf => 2,
        }
    }

    /// Number of bytes the terminator takes in the stream.
    pub fn len(&self) -> (r: usize)
        ensures
            r == self.spec_len(),
    {
        match self {
            Newline::Lf => 1,
            Newline::CrLf => 2,
        }
    }
}

/// The text the patterns are tried on: the current line, joined by a line feed to the
/// next line when there is one.
pub open spec fn probe_of(cur: Seq<char>, next: Option<Seq<char>>) -> Seq<char> {
    match next {
        Some(n) => cur + seq!['\n'] + n,
        None => cur,
    }
}

/// What processing one current line does.
pub struct StepView {
    /// The record produced, if a pattern matched and its groups converted.
    pub record: Option<MessageView>,
    /// The conversion error, if a pattern matched and its groups did not convert.
    pub error: Option<ErrorView>,
    /// The stream bytes the match covers, when it produced a record.
    pub matched: Option<Seq<u8>>,
    /// Whether the next line was committed together with the current one.
    pub consumed_next: bool,
    /// How far the stream position moves.
    pub advance: nat,
}

/// Where probe offset `k` of a line with `c` bytes lies relative to the line's start in
/// the stream: past the line, the one inserted line feed stands for `t` terminator bytes.
pub open spec fn stream_offset(c: nat, k: int, t: nat) -> int {
    if k <= c {
        k
    } else {
        k + t - 1
    }
}

/// The probe bytes `[s, e)`, with the inserted line feed written as the terminator.
pub open spec fn stream_text(cur: Seq<char>, next: Option<Seq<char>>, t: nat, s: int, e: int) -> Seq<
    u8,
> {
    let b = vstd::utf8::encode_utf8(probe_of(cur, next));
    let c = byte_len(cur) as int;
    if e <= c {
        b.subrange(s, e)
    } else {
        b.subrange(s, c) + terminator(t) + b.subrange(c + 1, e)
    }
}

/// The stream bytes from where `cur` starts up to the end of `next`, if any.
pub open spec fn window_bytes(cur: Seq<char>, next: Option<Seq<char>>, t: nat) -> Seq<u8> {
    match next {
        Some(n) => vstd::utf8::encode_utf8(cur) + terminator(t) + vstd::utf8::encode_utf8(n),
        None => vstd::utf8::encode_utf8(cur),
    }
}

/// A step that takes nothing from the probe and moves on by `advance` bytes.
pub open spec fn no_match(advance: nat) -> StepView {
    StepView { record: None, error: None, matched: None, consumed_next: false, advance }
}

/// One step of the matcher on line `cur`, with lookahead `next`, at stream position `pos`.
///
/// The first pattern that matches the probe decides. A match that starts past the current
/// line belongs to the next line, which is offered on its own later: it is not taken here.
/// A match that crosses into the next line commits both lines; any other match, a match
/// whose groups do not convert (it is dropped and its error reported), and no match at
/// all commit the current line only. Spans are stream offsets: `pos` plus the offset in
/// the probe, with the terminator's real length past the current line.
pub open spec fn step(
    pats: Seq<Seq<char>>,
    cur: Seq<char>,
    next: Option<Seq<char>>,
    pos: int,
    t: nat,
) -> StepView {
    let probe = probe_of(cur, next);
    let c = byte_len(cur);
    let single = c + t;
    match first_hit(pats, probe) {
        None => no_match(single),
        Some(h) => {
            let (k, s, e) = h;
            if s > c {
                no_match(single)
            } else {
                let span = (pos + s, pos + stream_offset(c, e as int, t));
                let matched = Some(stream_text(cur, next, t, s as int, e as int));
                match convert(pats[k], groups_of(pats[k], probe), span) {
                    Err(err) => StepView {
                        record: None,
                        error: Some(err),
                        matched: None,
                        consumed_next: false,
                        advance: single,
                    },
                    Ok(m) => {
                        if next is Some && spans_newline(probe, s as int, e as int) {
                            StepView {
                                record: Some(m),
                                error: None,
                                matched,
                                consumed_next: true,
                                advance: single + byte_len(next->0) + t,
                            }
                        } else {
                            StepView {
                                record: Some(m),
                                error: None,
                                matched,
                                consumed_next: false,
                                advance: single,
                            }
                        }
                    },
                }
            }
        },
    }
}

/// The matched stream bytes are the window's bytes at the mapped offsets.
proof fn lemma_stream_text(cur: Seq<char>, next: Option<Seq<char>>, t: nat, s: int, e: int)
    requires
        t == 1 || t == 2,
        0 <= s <= byte_len(cur),
        s <= e <= byte_len(probe_of(cur, next)),
    ensures
        ({
            let c = byte_len(cur);
            let w = window_bytes(cur, next, t);
            &&& s <= stream_offset(c, e, t) <= w.len()
            &&& w.subrange(s, stream_offset(c, e, t)) == stream_text(cur, next, t, s, e)
        }),
{
    let c = byte_len(cur) as int;
    let enc = vstd::utf8::encode_utf8(cur);
    let b = vstd::utf8::encode_utf8(probe_of(cur, next));
    let w = window_bytes(cur, next, t);
    match next {
        Some(n) => {
            lemma_encode_joined(cur, n);
            let en = vstd::utf8::encode_utf8(n);
            assert(b == enc + seq![10u8] + en);
            if e <= c {
                assert(w.subrange(s, e) =~= b.subrange(s, e));
            } else {
                assert(b.subrange(s, c) =~= enc.subrange(s, c));
                assert(b.subrange(c + 1, e) =~= en.subrange(0, e - c - 1));
                assert(w.subrange(s, e + t - 1) =~= enc.subrange(s, c) + terminator(t) + en.subrange(
                    0,
                    e - c - 1,
                ));
            }
        },
        None => {
            assert(w.subrange(s, e) =~= b.subrange(s, e));
        },
    }
}

/// The result of one step, as returned to the caller.
pub struct Step {
    pub record: Option<Message>,
    pub error: Option<CompmodeError>,
    pub consumed_next: bool,
    pub advance: usize,
}

pub open spec fn step_agrees(r: Step, v: StepView) -> bool {
    &&& match r.record {
        Some(m) => v.record == Some(m@),
        None => v.record is None,
    }
    &&& match r.error {
        Some(e) => v.error == Some(e@),
        None => v.error is None,
    }
    &&& r.consumed_next == v.consumed_next
    &&& r.advance == v.advance
}

pub open spec fn opt_str_view(o: Option<&str>) -> Option<Seq<char>> {
    match o {
        Some(s) => Some(s@),
        None => None,
    }
}

/// Bytes that one step may commit: the current line and, if any, the next, each with
/// its terminator.
pub open spec fn window_len(cur: Seq<char>, next: Option<Seq<char>>, t: nat) -> nat {
    match next {
        Some(n) => byte_len(cur) + t + byte_len(n) + t,
        None => byte_len(cur) + t,
    }
}

/// Processes the current line `cur` with lookahead `next` at stream position `pos`.
pub fn process_line(
    patterns: &PatternSet,
    cur: &str,
    next: Option<&str>,
    pos: usize,
    newline: Newline,
) -> (r: Step)
    requires
        pos + window_len(cur@, opt_str_view(next), newline.spec_len()) <= usize::MAX,
    ensures
        step_agrees(r, step(patterns@, cur@, opt_str_view(next), pos as int, newline.spec_len())),
        // a record starts on the current line; unless it takes the next line with it, it
        // ends there too; its span holds exactly the stream bytes it matched
        r.record matches Some(m) ==> {
            &&& pos <= m.span.0 <= pos + byte_len(cur@)
            &&& m.span.0 <= m.span.1
            &&& !r.consumed_next ==> m.span.1 <= pos + byte_len(cur@)
            &&& covers(
                window_bytes(cur@, opt_str_view(next), newline.spec_len()),
                (m.span.0 - pos, m.span.1 - pos),
                step(patterns@, cur@, opt_str_view(next), pos as int, newline.spec_len()).matched->0,
            )
        },
{
    let t = newline.len();
    let cur_len = byte_len_exec(cur);
    let single = cur_len + t;
    let mut probe = String::from_str(cur);
    let mut window = single;
    match next {
        Some(n) => {
            proof {
                reveal_strlit("\n");
                lemma_encode_joined(cur@, n@);
            }
            probe.append("\n");
            probe.append(n);
            window = single + byte_len_exec(n) + t;
        },
        None => {},
    }
    assert(probe@ == probe_of(cur@, opt_str_view(next)));
    assert(byte_len(probe@) < window);
    let no_record = Step { record: None, error: None, consumed_next: false, advance: single };
    match capture_first(patterns, probe.as_str()) {
        None => no_record,
        Some(hit) => {
            if hit.start > cur_len {
                return no_record;
            }
            let end = if hit.end <= cur_len {
                pos + hit.end
            } else {
                pos + hit.end + (t - 1)
            };
            let span = (pos + hit.start, end);
            match Message::try_from(patterns.get(hit.pattern), probe.as_str(), span) {
                Err(e) => Step { record: None, error: Some(e), consumed_next: false, advance: single },
                Ok(m) => {
                    proof {
                        lemma_stream_text(
                            cur@,
                            opt_str_view(next),
                            t as nat,
                            hit.start as int,
                            hit.end as int,
                        );
                    }
                    if next.is_some() && has_newline(probe.as_str(), hit.start, hit.end) {
                        Step { record: Some(m), error: None, consumed_next: true, advance: window }
                    } else {
                        proof {
                            if next.is_some() && cur_len < hit.end {
                                let bytes = vstd::utf8::encode_utf8(probe@);
                                assert(bytes[cur_len as int] == 10u8);
                                assert(spans_newline(probe@, hit.start as int, hit.end as int));
                            }
                        }
                        Step { record: Some(m), error: None, consumed_next: false, advance: single }
                    }
                },
            }
        },
    }
}

/// The terminator's bytes.
pub open spec fn terminator(t: nat) -> Seq<u8> {
    if t == 1 {
        seq![10u8]
    } else {
        seq![13u8, 10u8]
    }
}

/// The stream as bytes: every line followed by its terminator.
pub open spec fn stream_bytes(lines: Seq<Seq<char>>, t: nat) -> Seq<u8>
    decreases lines.len(),
{
    if lines.len() == 0 {
        Seq::empty()
    } else {
        stream_bytes(lines.drop_last(), t) + vstd::utf8::encode_utf8(lines.last()) + terminator(t)
    }
}

/// Where line `i` starts in the stream.
pub open spec fn line_offset(lines: Seq<Seq<char>>, t: nat, i: int) -> nat {
    stream_bytes(lines.take(i), t).len()
}

pub open spec fn next_of(lines: Seq<Seq<char>>, i: int) -> Option<Seq<char>> {
    if i + 1 < lines.len() {
        Some(lines[i + 1])
    } else {
        None
    }
}

pub open spec fn opt_seq<A>(o: Option<A>) -> Seq<A> {
    match o {
        Some(a) => seq![a],
        None => Seq::empty(),
    }
}

/// Everything a scan produces.
pub struct ScanView {
    pub records: Seq<MessageView>,
    /// For each record, the bytes its pattern matched.
    pub matched: Seq<Seq<u8>>,
    pub errors: Seq<ErrorView>,
    /// The stream position once every line is processed.
    pub position: int,
    /// Each line offered as current line, with whether its successor was consumed with it.
    pub offered: Seq<(int, bool)>,
    /// For each record, the line it was found on and whether it consumed the next line.
    pub origins: Seq<(int, bool)>,
}

/// The scan of `lines` from line `i` on, with stream position `pos`.
pub open spec fn scan_from(
    pats: Seq<Seq<char>>,
    lines: Seq<Seq<char>>,
    t: nat,
    i: nat,
    pos: int,
) -> ScanView
    decreases lines.len() - i,
{
    if i >= lines.len() {
        ScanView {
            records: Seq::empty(),
            matched: Seq::empty(),
            errors: Seq::empty(),
            position: pos,
            offered: Seq::empty(),
            origins: Seq::empty(),
        }
    } else {
        let st = step(pats, lines[i as int], next_of(lines, i as int), pos, t);
        let j: nat = if st.consumed_next {
            i + 2
        } else {
            i + 1
        };
        let rest = scan_from(pats, lines, t, j, pos + st.advance);
        ScanView {
            records: opt_seq(st.record) + rest.records,
            matched: (if st.record is Some {
                opt_seq(st.matched)
            } else {
                Seq::empty()
            }) + rest.matched,
            errors: opt_seq(st.error) + rest.errors,
            position: rest.position,
            offered: seq![(i as int, st.consumed_next)] + rest.offered,
            origins: (if st.record is Some {
                seq![(i as int, st.consumed_next)]
            } else {
                Seq::empty()
            }) + rest.origins,
        }
    }
}

/// The scan of a whole, fully buffered stream of lines with terminator length `t`.
pub open spec fn scan(pats: Seq<Seq<char>>, lines: Seq<Seq<char>>, t: nat) -> ScanView {
    scan_from(pats, lines, t, 0, 0)
}

pub open spec fn views_of(lines: Seq<String>) -> Seq<Seq<char>> {
    lines.map_values(|l: String| l@)
}

pub open spec fn records_view(v: Seq<Message>) -> Seq<MessageView> {
    v.map_values(|m: Message| m@)
}

pub open spec fn errors_view(v: Seq<CompmodeError>) -> Seq<ErrorView> {
    v.map_values(|e: CompmodeError| e@)
}

/// The outcome of scanning a buffered stream.
pub struct Scan {
    pub records: Vec<Message>,
    pub errors: Vec<CompmodeError>,
    /// Stream position at the end: the stream's length in bytes.
    pub position: usize,
}

/// A longer prefix of the lines covers at least as many stream bytes.
pub proof fn lemma_offset_monotone(lines: Seq<Seq<char>>, t: nat, a: int, b: int)
    requires
        0 <= a <= b <= lines.len(),
        t == 1 || t == 2,
    ensures
        line_offset(lines, t, a) <= line_offset(lines, t, b),
    decreases b - a,
{
    if a < b {
        lemma_offset_step(lines, t, b - 1);
        lemma_offset_monotone(lines, t, a, b - 1);
    }
}

/// Line `i` and its terminator follow the lines before it.
pub proof fn lemma_offset_step(lines: Seq<Seq<char>>, t: nat, i: int)
    requires
        0 <= i < lines.len(),
        t == 1 || t == 2,
    ensures
        stream_bytes(lines.take(i + 1), t) == stream_bytes(lines.take(i), t)
            + vstd::utf8::encode_utf8(lines[i]) + terminator(t),
        line_offset(lines, t, i + 1) == line_offset(lines, t, i) + byte_len(lines[i]) + t,
{
    assert(lines.take(i + 1).drop_last() =~= lines.take(i));
    assert(lines.take(i + 1).last() == lines[i]);
    assert(terminator(t).len() == t);
}

/// The bytes of `lines` before line `k` open the stream.
pub proof fn lemma_prefix(lines: Seq<Seq<char>>, t: nat, k: int)
    requires
        0 <= k <= lines.len(),
        t == 1 || t == 2,
    ensures
        line_offset(lines, t, k) <= stream_bytes(lines, t).len(),
        stream_bytes(lines, t).subrange(0, line_offset(lines, t, k) as int) == stream_bytes(
            lines.take(k),
            t,
        ),
    decreases lines.len() - k,
{
    if k == lines.len() {
        assert(lines.take(k) =~= lines);
        assert(stream_bytes(lines, t).subrange(0, line_offset(lines, t, k) as int)
            =~= stream_bytes(lines, t));
    } else {
        lemma_prefix(lines, t, k + 1);
        lemma_offset_step(lines, t, k);
        let whole = stream_bytes(lines, t);
        let longer = stream_bytes(lines.take(k + 1), t);
        let shorter = stream_bytes(lines.take(k), t);
        assert(whole.subrange(0, shorter.len() as int) =~= longer.subrange(0, shorter.len() as int));
        assert(longer.subrange(0, shorter.len() as int) =~= shorter);
    }
}

/// The stream's bytes from where line `i` starts are line `i`, its terminator and the
/// next line, if there is one.
pub proof fn lemma_window_in_stream(lines: Seq<Seq<char>>, t: nat, i: int)
    requires
        0 <= i < lines.len(),
        t == 1 || t == 2,
    ensures
        ({
            let w = window_bytes(lines[i], next_of(lines, i), t);
            let start = line_offset(lines, t, i) as int;
            &&& start + w.len() <= stream_bytes(lines, t).len()
            &&& stream_bytes(lines, t).subrange(start, start + w.len()) == w
        }),
{
    let w = window_bytes(lines[i], next_of(lines, i), t);
    let start = line_offset(lines, t, i) as int;
    let whole = stream_bytes(lines, t);
    lemma_offset_step(lines, t, i);
    let enc_cur = vstd::utf8::encode_utf8(lines[i]);
    if i + 1 < lines.len() {
        lemma_offset_step(lines, t, i + 1);
        lemma_prefix(lines, t, i + 2);
        let enc_next = vstd::utf8::encode_utf8(lines[i + 1]);
        let head = stream_bytes(lines.take(i + 2), t);
        assert(head == stream_bytes(lines.take(i), t) + enc_cur + terminator(t) + enc_next
            + terminator(t));
        assert(head.subrange(start, start + w.len()) =~= w);
        assert(whole.subrange(start, start + w.len()) =~= head.subrange(start, start + w.len()));
    } else {
        lemma_prefix(lines, t, i + 1);
        let head = stream_bytes(lines.take(i + 1), t);
        assert(head.subrange(start, start + w.len()) =~= enc_cur);
        assert(whole.subrange(start, start + w.len()) =~= head.subrange(start, start + w.len()));
    }
}

/// `bytes` are the stream's bytes in the half-open range `span`.
pub open spec fn covers(stream: Seq<u8>, span: (int, int), bytes: Seq<u8>) -> bool {
    &&& 0 <= span.0 <= span.1 <= stream.len()
    &&& stream.subrange(span.0, span.1) == bytes
}

/// Bytes found in the window of line `i` are found in the stream, shifted to where that
/// line starts.
proof fn lemma_span_in_stream(
    lines: Seq<Seq<char>>,
    t: nat,
    i: int,
    span: (int, int),
    bytes: Seq<u8>,
)
    requires
        0 <= i < lines.len(),
        t == 1 || t == 2,
        ({
            let start = line_offset(lines, t, i) as int;
            covers(
                window_bytes(lines[i], next_of(lines, i), t),
                (span.0 - start, span.1 - start),
                bytes,
            )
        }),
    ensures
        covers(stream_bytes(lines, t), span, bytes),
{
    lemma_window_in_stream(lines, t, i);
    let w = window_bytes(lines[i], next_of(lines, i), t);
    let start = line_offset(lines, t, i) as int;
    let sb = stream_bytes(lines, t);
    assert(sb.subrange(span.0, span.1) =~= sb.subrange(start, start + w.len()).subrange(
        span.0 - start,
        span.1 - start,
    ));
}

/// `r` is the scan of `lines`: its records, errors and final position, and each record's
/// span holds exactly the stream bytes its pattern matched.
pub open spec fn scan_agrees(r: Scan, pats: Seq<Seq<char>>, lines: Seq<Seq<char>>, t: nat) -> bool {
    &&& records_view(r.records@) == scan(pats, lines, t).records
    &&& errors_view(r.errors@) == scan(pats, lines, t).errors
    &&& r.position == scan(pats, lines, t).position
    &&& r.records@.len() == scan(pats, lines, t).matched.len()
    &&& forall|j: int|
        0 <= j < r.records@.len() ==> covers(
            stream_bytes(lines, t),
            (#[trigger] r.records@[j])@.span,
            scan(pats, lines, t).matched[j],
        )
}

/// Scans a fully buffered stream whose length fits in `usize`.
#[verifier::rlimit(40)]
pub fn scan_lines(patterns: &PatternSet, lines: &Vec<String>, newline: Newline) -> (r: Scan)
    requires
        stream_bytes(views_of(lines@), newline.spec_len()).len() <= usize::MAX,
    ensures
        scan_agrees(r, patterns@, views_of(lines@), newline.spec_len()),
{
    let ghost ls = views_of(lines@);
    let ghost t = newline.spec_len();
    let ghost whole = scan(patterns@, ls, t);
    let n = lines.len();
    let mut records: Vec<Message> = Vec::new();
    let mut errors: Vec<CompmodeError> = Vec::new();
    let mut i: usize = 0;
    let mut pos: usize = 0;
    let ghost mut matched: Seq<Seq<u8>> = Seq::empty();
    assert(ls.take(0) =~= Seq::<Seq<char>>::empty());
    assert(ls.take(n as int) =~= ls);
    while i < n
        invariant
            n == lines@.len(),
            ls == views_of(lines@),
            t == newline.spec_len(),
            whole == scan(patterns@, ls, t),
            i <= n,
            pos == line_offset(ls, t, i as int),
            line_offset(ls, t, n as int) <= usize::MAX,
            records_view(records@) + scan_from(patterns@, ls, t, i as nat, pos as int).records
                == whole.records,
            errors_view(errors@) + scan_from(patterns@, ls, t, i as nat, pos as int).errors
                == whole.errors,
            scan_from(patterns@, ls, t, i as nat, pos as int).position == whole.position,
            matched + scan_from(patterns@, ls, t, i as nat, pos as int).matched == whole.matched,
            matched.len() == records@.len(),
            forall|j: int|
                0 <= j < records@.len() ==> covers(
                    stream_bytes(ls, t),
                    (#[trigger] records@[j])@.span,
                    matched[j],
                ),
        decreases n - i,
    {
        let ghost old_records = records@;
        let ghost old_errors = errors@;
        let ghost rest = scan_from(patterns@, ls, t, i as nat, pos as int);
        let next: Option<&str> = if i + 1 < n {
            Some(lines[i + 1].as_str())
        } else {
            None
        };
        proof {
            lemma_offset_step(ls, t, i as int);
            if i + 1 < n {
                lemma_offset_step(ls, t, i + 1);
                lemma_offset_monotone(ls, t, i + 2, n as int);
            } else {
                lemma_offset_monotone(ls, t, i + 1, n as int);
            }
            assert(opt_str_view(next) == next_of(ls, i as int));
        }
        let st = process_line(patterns, lines[i].as_str(), next, pos, newline);
        let ghost v = step(patterns@, ls[i as int], next_of(ls, i as int), pos as int, t);
        match st.record {
            Some(m) => {
                proof {
                    lemma_span_in_stream(ls, t, i as int, m@.span, v.matched->0);
                    matched = matched.push(v.matched->0);
                }
                records.push(m);
            },
            None => {},
        }
        match st.error {
            Some(e) => errors.push(e),
            None => {},
        }
        proof {
            assert(records_view(records@) =~= records_view(old_records) + opt_seq(
                step(patterns@, ls[i as int], next_of(ls, i as int), pos as int, t).record,
            ));
            assert(errors_view(errors@) =~= errors_view(old_errors) + opt_seq(
                step(patterns@, ls[i as int], next_of(ls, i as int), pos as int, t).error,
            ));
        }
        pos = pos + st.advance;
        i = if st.consumed_next {
            i + 2
        } else {
            i + 1
        };
        proof {
            assert(records_view(records@) + scan_from(patterns@, ls, t, i as nat, pos as int).records
                =~= whole.records);
            assert(errors_view(errors@) + scan_from(patterns@, ls, t, i as nat, pos as int).errors
                =~= whole.errors);
            assert(matched + scan_from(patterns@, ls, t, i as nat, pos as int).matched
                =~= whole.matched);
        }
    }
    Scan { records, errors, position: pos }
}

/// The stream's length in bytes, or `None` when it does not fit in `usize`.
pub fn stream_len(lines: &Vec<String>, newline: Newline) -> (r: Option<usize>)
    ensures
        r is Some <==> stream_bytes(views_of(lines@), newline.spec_len()).len() <= usize::MAX,
        r matches Some(n) ==> n == stream_bytes(views_of(lines@), newline.spec_len()).len(),
{
    let ghost ls = views_of(lines@);
    let ghost tt = newline.spec_len();
    let t = newline.len();
    let n = lines.len();
    let mut total: usize = 0;
    let mut i: usize = 0;
    assert(ls.take(0) =~= Seq::<Seq<char>>::empty());
    assert(ls.take(n as int) =~= ls);
    while i < n
        invariant
            n == lines@.len(),
            ls == views_of(lines@),
            tt == newline.spec_len(),
            t == tt,
            i <= n,
            total == line_offset(ls, tt, i as int),
            stream_bytes(ls, tt).len() == line_offset(ls, tt, n as int),
        decreases n - i,
    {
        proof {
            lemma_offset_step(ls, tt, i as int);
            lemma_offset_monotone(ls, tt, i + 1, n as int);
        }
        let len = byte_len_exec(lines[i].as_str());
        if len > usize::MAX - total || t > usize::MAX - total - len {
            return None;
        }
        total = total + len + t;
        i = i + 1;
    }
    Some(total)
}

/// Scans a fully buffered stream; `None` when the stream is too long for its byte
/// offsets to fit in `usize`.
pub fn scan_stream(patterns: &PatternSet, lines: &Vec<String>, newline: Newline) -> (r: Option<Scan>)
    ensures
        r is Some <==> stream_bytes(views_of(lines@), newline.spec_len()).len() <= usize::MAX,
        r matches Some(sc) ==> scan_agrees(sc, patterns@, views_of(lines@), newline.spec_len()),
{
    match stream_len(lines, newline) {
        Some(_) => Some(scan_lines(patterns, lines, newline)),
        None => None,
    }
}

/// A matcher fed one line at a time.
///
/// It holds back the latest line until its successor (or the end of the stream) is
/// known, since a pattern may span both.
pub struct Matcher {
    patterns: PatternSet,
    newline: Newline,
    position: usize,
    pending: Option<String>,
}

impl Matcher {
    pub closed spec fn spec_patterns(&self) -> Seq<Seq<char>> {
        self.patterns@
    }

    pub closed spec fn spec_newline(&self) -> Newline {
        self.newline
    }

    /// Bytes of the stream committed so far; they will not be scanned again.
    pub closed spec fn spec_position(&self) -> nat {
        self.position as nat
    }

    /// The line waiting for its successor.
    pub closed spec fn spec_pending(&self) -> Option<Seq<char>> {
        match self.pending {
            Some(l) => Some(l@),
            None => None,
        }
    }

    /// Stream bytes seen so far: the committed ones and the pending line with its terminator.
    pub open spec fn spec_seen(&self) -> nat {
        self.spec_position() + match self.spec_pending() {
            Some(cur) => byte_len(cur) + self.spec_newline().spec_len(),
            None => 0,
        }
    }

    /// Positions stay representable.
    pub open spec fn wf(&self) -> bool {
        self.spec_seen() <= usize::MAX
    }

    /// Whether `line` can still be taken without the stream position overflowing.
    pub open spec fn room_for(&self, line: Seq<char>) -> bool {
        self.spec_seen() + byte_len(line) + self.spec_newline().spec_len() <= usize::MAX
    }

    /// A matcher at the start of a stream.
    pub fn new(patterns: PatternSet, newline: Newline) -> (r: Matcher)
        ensures
            r.wf(),
            r.spec_patterns() == patterns@,
            r.spec_newline() == newline,
            r.spec_position() == 0,
            r.spec_pending() is None,
    {
        Matcher { patterns, newline, position: 0, pending: None }
    }

    /// Bytes of the stream committed so far.
    pub fn position(&self) -> (r: usize)
        ensures
            r == self.spec_position(),
    {
        self.position
    }

    /// Whether `line` can be pushed; see `room_for`.
    pub fn can_take(&self, line: &str) -> (r: bool)
        requires
            self.wf(),
        ensures
            r == self.room_for(line@),
    {
        let t = self.newline.len();
        let held = match &self.pending {
            Some(cur) => byte_len_exec(cur.as_str()) + t,
            None => 0,
        };
        let room = usize::MAX - self.position - held;
        let len = byte_len_exec(line);
        len <= room && t <= room - len
    }

    /// Takes the next line of the stream. When a line was pending, it is processed now
    /// with `line` as lookahead and returned with its outcome; the stream position moves
    /// on, and `line` stays pending unless the match consumed it.
    pub fn push(&mut self, line: String) -> (r: Option<(String, Step)>)
        requires
            old(self).wf(),
            old(self).room_for(line@),
        ensures
            final(self).wf(),
            final(self).spec_patterns() == old(self).spec_patterns(),
            final(self).spec_newline() == old(self).spec_newline(),
            match old(self).spec_pending() {
                None => {
                    &&& r is None
                    &&& final(self).spec_pending() == Some(line@)
                    &&& final(self).spec_position() == old(self).spec_position()
                },
                Some(cur) => {
                    let v = step(
                        old(self).spec_patterns(),
                        cur,
                        Some(line@),
                        old(self).spec_position() as int,
                        old(self).spec_newline().spec_len(),
                    );
                    &&& r matches Some(out) && out.0@ == cur && step_agrees(out.1, v)
                    &&& final(self).spec_position() == old(self).spec_position() + v.advance
                    &&& final(self).spec_pending() == if v.consumed_next {
                        None
                    } else {
                        Some(line@)
                    }
                },
            },
    {
        match self.pending.take() {
            None => {
                self.pending = Some(line);
                None
            },
            Some(cur) => {
                let st = process_line(
                    &self.patterns,
                    cur.as_str(),
                    Some(line.as_str()),
                    self.position,
                    self.newline,
                );
                self.position = self.position + st.advance;
                if !st.consumed_next {
                    self.pending = Some(line);
                }
                Some((cur, st))
            },
        }
    }

    /// Ends the stream: a pending line is processed on its own and returned with its
    /// outcome.
    pub fn finish(&mut self) -> (r: Option<(String, Step)>)
        requires
            old(self).wf(),
        ensures
            final(self).wf(),
            final(self).spec_patterns() == old(self).spec_patterns(),
            final(self).spec_newline() == old(self).spec_newline(),
            final(self).spec_pending() is None,
            match old(self).spec_pending() {
                None => r is None && final(self).spec_position() == old(self).spec_position(),
                Some(cur) => {
                    let v = step(
                        old(self).spec_patterns(),
                        cur,
                        None,
                        old(self).spec_position() as int,
                        old(self).spec_newline().spec_len(),
                    );
                    &&& r matches Some(out) && out.0@ == cur && step_agrees(out.1, v)
                    &&& final(self).spec_position() == old(self).spec_position() + v.advance
                },
            },
    {
        match self.pending.take() {
            None => None,
            Some(cur) => {
                let st = process_line(&self.patterns, cur.as_str(), None, self.position, self.newline);
                self.position = self.position + st.advance;
                Some((cur, st))
            },
        }
    }
}

} // verus!
