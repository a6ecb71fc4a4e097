//! Properties of a whole scan that hold for every stream and every pattern set.
use vstd::prelude::*;
use crate::matcher::{
    line_offset, lemma_offset_step, next_of, opt_seq, scan, scan_from, step, stream_bytes,
};
use crate::message::MessageView;
use crate::pattern::first_hit;
use crate::matcher::probe_of;
use crate::text::byte_len;

verus! {

proof fn lemma_empty_set_from(lines: Seq<Seq<char>>, t: nat, i: nat, pos: int)
    ensures
        scan_from(Seq::empty(), lines, t, i, pos).records.len() == 0,
        scan_from(Seq::empty(), lines, t, i, pos).errors.len() == 0,
    decreases lines.len() - i,
{
    if i < lines.len() {
        let st = step(Seq::empty(), lines[i as int], next_of(lines, i as int), pos, t);
        assert(st.record is None && st.error is None && !st.consumed_next);
        lemma_empty_set_from(lines, t, i + 1, pos + st.advance);
    }
}

/// With an empty pattern set, scanning any stream yields no record and no error.
pub proof fn law_empty_pattern_set(lines: Seq<Seq<char>>, t: nat)
    ensures
        scan(Seq::empty(), lines, t).records.len() == 0,
        scan(Seq::empty(), lines, t).errors.len() == 0,
{
    lemma_empty_set_from(lines, t, 0, 0);
}

proof fn lemma_position_from(pats: Seq<Seq<char>>, lines: Seq<Seq<char>>, t: nat, i: nat)
    requires
        i <= lines.len(),
        t == 1 || t == 2,
    ensures
        scan_from(pats, lines, t, i, line_offset(lines, t, i as int) as int).position
            == line_offset(lines, t, lines.len() as int),
    decreases lines.len() - i,
{
    if i < lines.len() {
        let pos = line_offset(lines, t, i as int) as int;
        let st = step(pats, lines[i as int], next_of(lines, i as int), pos, t);
        lemma_offset_step(lines, t, i as int);
        if st.consumed_next {
            lemma_offset_step(lines, t, (i + 1) as int);
            lemma_position_from(pats, lines, t, i + 2);
        } else {
            lemma_position_from(pats, lines, t, i + 1);
        }
    }
}

/// Once the whole stream is processed, the stream position is the stream's length in
/// bytes, terminators included: every byte is committed exactly once.
pub proof fn law_position_is_stream_length(pats: Seq<Seq<char>>, lines: Seq<Seq<char>>, t: nat)
    requires
        t == 1 || t == 2,
    ensures
        scan(pats, lines, t).position == stream_bytes(lines, t).len(),
{
    assert(lines.take(0) =~= Seq::<Seq<char>>::empty());
    assert(lines.take(lines.len() as int) =~= lines);
    lemma_position_from(pats, lines, t, 0);
}

proof fn lemma_offered_from(pats: Seq<Seq<char>>, lines: Seq<Seq<char>>, t: nat, i: nat, pos: int)
    ensures
        ({
            let o = scan_from(pats, lines, t, i, pos).offered;
            &&& forall|a: int| 0 <= a < o.len() ==> i <= (#[trigger] o[a]).0 < lines.len()
            &&& forall|a: int, b: int| 0 <= a < b < o.len() ==> (#[trigger] o[a]).0 < (
            #[trigger] o[b]).0
            &&& forall|a: int|
                0 <= a < o.len() && (#[trigger] o[a]).1 ==> o[a].0 + 1 < lines.len() && (a + 1
                    < o.len() ==> o[a + 1].0 == o[a].0 + 2)
        }),
    decreases lines.len() - i,
{
    if i < lines.len() {
        let st = step(pats, lines[i as int], next_of(lines, i as int), pos, t);
        let j: nat = if st.consumed_next {
            i + 2
        } else {
            i + 1
        };
        lemma_offered_from(pats, lines, t, j, pos + st.advance);
        let rest = scan_from(pats, lines, t, j, pos + st.advance).offered;
        let o = scan_from(pats, lines, t, i, pos).offered;
        assert(o == seq![(i as int, st.consumed_next)] + rest);
        assert forall|a: int| 0 < a < o.len() implies o[a] == rest[a - 1] by {}
        assert forall|a: int, b: int| 0 <= a < b < o.len() implies (#[trigger] o[a]).0 < (
        #[trigger] o[b]).0 by {
            if a > 0 {
                assert(rest[a - 1].0 < rest[b - 1].0);
            } else {
                assert(rest[b - 1].0 >= j);
            }
        }
        assert forall|a: int|
            0 <= a < o.len() && (#[trigger] o[a]).1 implies o[a].0 + 1 < lines.len() && (a + 1
                < o.len() ==> o[a + 1].0 == o[a].0 + 2) by {
            if a > 0 {
                assert(rest[a - 1].1);
            } else if a + 1 < o.len() {
                assert(rest[0].0 >= j);
                assert(rest[0].0 <= j) by {
                    assert(scan_from(pats, lines, t, j, pos + st.advance).offered.len() > 0);
                }
            }
        }
    }
}

/// A line that was consumed as the second half of a two-line match is never offered
/// again as a current line.
pub proof fn law_consumed_line_not_reoffered(pats: Seq<Seq<char>>, lines: Seq<Seq<char>>, t: nat)
    ensures
        ({
            let o = scan(pats, lines, t).offered;
            forall|a: int, b: int|
                0 <= a < o.len() && 0 <= b < o.len() && (#[trigger] o[a]).1 ==> (#[trigger] o[b]).0
                    != o[a].0 + 1
        }),
{
    lemma_offered_from(pats, lines, t, 0, 0);
    let o = scan(pats, lines, t).offered;
    assert forall|a: int, b: int|
        0 <= a < o.len() && 0 <= b < o.len() && (#[trigger] o[a]).1 implies (#[trigger] o[b]).0
            != o[a].0 + 1 by {
        if b > a + 1 {
            assert(o[a + 1].0 < o[b].0);
        } else if b < a {
            assert(o[b].0 < o[a].0);
        }
    }
}

/// Scanning is a function of its inputs: an identical copy of a stream, scanned with
/// the same patterns and terminator, gives the same records, errors and position.
pub proof fn law_rescan_identical(
    pats: Seq<Seq<char>>,
    lines: Seq<Seq<char>>,
    copy: Seq<Seq<char>>,
    t: nat,
)
    requires
        copy == lines,
    ensures
        scan(pats, copy, t) == scan(pats, lines, t),
{
}

/// What a `Matcher` emits, and where its position ends, when it is pushed `lines[k..]`
/// while holding `pending` at position `pos`, and then finished. Each case is one call
/// of `Matcher::push` or `Matcher::finish`, as their contracts state it.
pub open spec fn feed_from(
    pats: Seq<Seq<char>>,
    lines: Seq<Seq<char>>,
    t: nat,
    k: nat,
    pending: Option<Seq<char>>,
    pos: int,
) -> (Seq<MessageView>, int)
    decreases lines.len() - k,
{
    if k >= lines.len() {
        match pending {
            None => (Seq::empty(), pos),
            Some(cur) => {
                let st = step(pats, cur, None, pos, t);
                (opt_seq(st.record), pos + st.advance)
            },
        }
    } else {
        match pending {
            None => feed_from(pats, lines, t, k + 1, Some(lines[k as int]), pos),
            Some(cur) => {
                let st = step(pats, cur, Some(lines[k as int]), pos, t);
                let held = if st.consumed_next {
                    None
                } else {
                    Some(lines[k as int])
                };
                let rest = feed_from(pats, lines, t, k + 1, held, pos + st.advance);
                (opt_seq(st.record) + rest.0, rest.1)
            },
        }
    }
}

proof fn lemma_feed_from(
    pats: Seq<Seq<char>>,
    lines: Seq<Seq<char>>,
    t: nat,
    k: nat,
    pending: Option<Seq<char>>,
    pos: int,
)
    requires
        k <= lines.len(),
        pending is Some ==> k >= 1 && pending == Some(lines[k - 1]),
    ensures
        ({
            let i: nat = if pending is Some {
                (k - 1) as nat
            } else {
                k
            };
            &&& feed_from(pats, lines, t, k, pending, pos).0 == scan_from(pats, lines, t, i, pos).records
            &&& feed_from(pats, lines, t, k, pending, pos).1 == scan_from(
                pats,
                lines,
                t,
                i,
                pos,
            ).position
        }),
    decreases lines.len() - k,
{
    if k < lines.len() {
        match pending {
            None => {
                lemma_feed_from(pats, lines, t, k + 1, Some(lines[k as int]), pos);
            },
            Some(cur) => {
                let i = (k - 1) as nat;
                assert(next_of(lines, i as int) == Some(lines[k as int]));
                let st = step(pats, cur, Some(lines[k as int]), pos, t);
                let held = if st.consumed_next {
                    None
                } else {
                    Some(lines[k as int])
                };
                lemma_feed_from(pats, lines, t, k + 1, held, pos + st.advance);
            },
        }
    } else if pending is Some {
        let i = (k - 1) as nat;
        assert(next_of(lines, i as int) is None);
        let st = step(pats, lines[i as int], None, pos, t);
        assert(scan_from(pats, lines, t, i + 1, pos + st.advance).records =~= Seq::<
            MessageView,
        >::empty());
        assert(opt_seq(st.record) + Seq::<MessageView>::empty() =~= opt_seq(st.record));
    }
}

/// Streaming and buffering agree: pushing the lines of a stream one by one into a fresh
/// `Matcher` and finishing it emits exactly the records of a scan of the whole stream,
/// in the same order, and leaves the same position.
pub proof fn law_streaming_matches_scan(pats: Seq<Seq<char>>, lines: Seq<Seq<char>>, t: nat)
    ensures
        feed_from(pats, lines, t, 0, None, 0).0 == scan(pats, lines, t).records,
        feed_from(pats, lines, t, 0, None, 0).1 == scan(pats, lines, t).position,
{
    lemma_feed_from(pats, lines, t, 0, None, 0);
}

proof fn lemma_starts_from(pats: Seq<Seq<char>>, lines: Seq<Seq<char>>, t: nat, i: nat, pos: int)
    requires
        t == 1 || t == 2,
    ensures
        ({
            let sc = scan_from(pats, lines, t, i, pos);
            &&& sc.origins.len() == sc.records.len()
            &&& forall|k: int| 0 <= k < sc.records.len() ==> (#[trigger] sc.records[k]).span.0 >= pos
            &&& forall|a: int, b: int|
                0 <= a < b < sc.records.len() ==> (#[trigger] sc.records[a]).span.0 < (
                #[trigger] sc.records[b]).span.0
        }),
    decreases lines.len() - i,
{
    if i < lines.len() {
        let st = step(pats, lines[i as int], next_of(lines, i as int), pos, t);
        let j: nat = if st.consumed_next {
            i + 2
        } else {
            i + 1
        };
        lemma_starts_from(pats, lines, t, j, pos + st.advance);
        let rest = scan_from(pats, lines, t, j, pos + st.advance);
        let sc = scan_from(pats, lines, t, i, pos);
        if st.record is Some {
            let m = st.record->0;
            assert(pos <= m.span.0 < pos + st.advance);
            assert(sc.records == seq![m] + rest.records);
            assert forall|k: int| 0 < k < sc.records.len() implies sc.records[k] == rest.records[k
                - 1] by {}
        } else {
            assert(sc.records == rest.records);
        }
    }
}

/// Records come in stream order: each one starts strictly after the one before it.
pub proof fn law_record_starts_increase(pats: Seq<Seq<char>>, lines: Seq<Seq<char>>, t: nat)
    requires
        t == 1 || t == 2,
    ensures
        forall|a: int, b: int|
            0 <= a < b < scan(pats, lines, t).records.len() ==> (#[trigger] scan(
                pats,
                lines,
                t,
            ).records[a]).span.0 < (#[trigger] scan(pats, lines, t).records[b]).span.0,
{
    lemma_starts_from(pats, lines, t, 0, 0);
}

proof fn lemma_after_pair_from(pats: Seq<Seq<char>>, lines: Seq<Seq<char>>, t: nat, i: nat)
    requires
        t == 1 || t == 2,
        i <= lines.len(),
    ensures
        ({
            let sc = scan_from(pats, lines, t, i, line_offset(lines, t, i as int) as int);
            &&& forall|k: int| 0 <= k < sc.origins.len() ==> (#[trigger] sc.origins[k]).0 >= i
            &&& forall|j: int, k: int|
                0 <= j < k < sc.records.len() && (#[trigger] sc.origins[j]).1 ==> (
                #[trigger] sc.records[k]).span.0 >= line_offset(lines, t, sc.origins[j].0 + 2)
        }),
    decreases lines.len() - i,
{
    if i < lines.len() {
        let pos = line_offset(lines, t, i as int) as int;
        let st = step(pats, lines[i as int], next_of(lines, i as int), pos, t);
        lemma_offset_step(lines, t, i as int);
        let j: nat = if st.consumed_next {
            i + 2
        } else {
            i + 1
        };
        if st.consumed_next {
            lemma_offset_step(lines, t, (i + 1) as int);
        }
        assert(pos + st.advance == line_offset(lines, t, j as int));
        lemma_after_pair_from(pats, lines, t, j);
        lemma_starts_from(pats, lines, t, j, pos + st.advance);
        lemma_starts_from(pats, lines, t, i, pos);
        let rest = scan_from(pats, lines, t, j, pos + st.advance);
        let sc = scan_from(pats, lines, t, i, pos);
        if st.record is Some {
            assert(sc.records == seq![st.record->0] + rest.records);
            assert(sc.origins == seq![(i as int, st.consumed_next)] + rest.origins);
            assert forall|k: int| 0 < k < sc.records.len() implies sc.records[k] == rest.records[k
                - 1] && sc.origins[k] == rest.origins[k - 1] by {}
            assert forall|j2: int, k: int|
                0 <= j2 < k < sc.records.len() && (#[trigger] sc.origins[j2]).1 implies (
                #[trigger] sc.records[k]).span.0 >= line_offset(lines, t, sc.origins[j2].0 + 2) by {
                if j2 == 0 {
                    assert(rest.records[k - 1].span.0 >= pos + st.advance);
                } else {
                    assert(rest.origins[j2 - 1].1);
                    assert(rest.records[k - 1].span.0 >= line_offset(
                        lines,
                        t,
                        rest.origins[j2 - 1].0 + 2,
                    ));
                }
            }
        } else {
            assert(sc.records == rest.records);
            assert(sc.origins == rest.origins);
        }
    }
}

/// After a record whose match took two lines, every later record starts at or after the
/// line that follows the pair: the consumed line is never scanned again.
pub proof fn law_records_after_pair(pats: Seq<Seq<char>>, lines: Seq<Seq<char>>, t: nat)
    requires
        t == 1 || t == 2,
    ensures
        ({
            let sc = scan(pats, lines, t);
            forall|j: int, k: int|
                0 <= j < k < sc.records.len() && (#[trigger] sc.origins[j]).1 ==> (
                #[trigger] sc.records[k]).span.0 >= line_offset(lines, t, sc.origins[j].0 + 2)
        }),
{
    assert(lines.take(0) =~= Seq::<Seq<char>>::empty());
    lemma_after_pair_from(pats, lines, t, 0);
}

/// No pattern matches the probe of line `i` (the line, joined to the next one if any).
pub open spec fn nothing_matches(pats: Seq<Seq<char>>, lines: Seq<Seq<char>>) -> bool {
    forall|i: int|
        0 <= i < lines.len() ==> (#[trigger] first_hit(pats, probe_of(lines[i], next_of(lines, i))))
            is None
}

proof fn lemma_no_hits_from(pats: Seq<Seq<char>>, lines: Seq<Seq<char>>, t: nat, i: nat, pos: int)
    requires
        nothing_matches(pats, lines),
    ensures
        scan_from(pats, lines, t, i, pos).records.len() == 0,
        scan_from(pats, lines, t, i, pos).errors.len() == 0,
    decreases lines.len() - i,
{
    if i < lines.len() {
        assert(first_hit(pats, probe_of(lines[i as int], next_of(lines, i as int))) is None);
        let st = step(pats, lines[i as int], next_of(lines, i as int), pos, t);
        lemma_no_hits_from(pats, lines, t, i + 1, pos + st.advance);
    }
}

/// A stream on which no pattern matches yields no record and no error, and its position
/// ends at the stream's length.
pub proof fn law_unmatched_stream(pats: Seq<Seq<char>>, lines: Seq<Seq<char>>, t: nat)
    requires
        nothing_matches(pats, lines),
        t == 1 || t == 2,
    ensures
        scan(pats, lines, t).records.len() == 0,
        scan(pats, lines, t).errors.len() == 0,
        scan(pats, lines, t).position == stream_bytes(lines, t).len(),
{
    lemma_no_hits_from(pats, lines, t, 0, 0);
    law_position_is_stream_length(pats, lines, t);
}

} // verus!
