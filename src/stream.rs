use vstd::prelude::*;
use crate::session::{
    ActionView, CloseReason, Phase, ReadView, SessionView, NEWLINE, after_read, after_write,
    echo_of, first_line_len, has_newline, lemma_first_line_len, wf_view,
};

verus! {

/// The state of a handler that has just been given its connection.
pub open spec fn fresh() -> SessionView {
    SessionView { phase: Phase::Reading, pending: Seq::empty() }
}

/// From state `v` with action `a` to do: each write going out in full, the
/// writes made until the handler asks to read, in order, and the state then.
pub open spec fn drain(v: SessionView, a: ActionView) -> (SessionView, Seq<Seq<u8>>)
    decreases v.pending.len(),
{
    match a {
        ActionView::Write(bytes) => {
            if v.phase == Phase::Echoing {
                let (next, more) = after_write(v, true);
                if next.pending.len() < v.pending.len() {
                    let (last, rest) = drain(next, more);
                    (last, seq![bytes] + rest)
                } else {
                    (next, seq![bytes])
                }
            } else {
                (v, seq![bytes])
            }
        },
        _ => (v, Seq::empty()),
    }
}

/// One chunk arriving in the reading phase, and every write that follows
/// going out in full: the next state and the writes made, in order.
pub open spec fn feed(v: SessionView, chunk: Seq<u8>) -> (SessionView, Seq<Seq<u8>>) {
    let (next, action) = after_read(v.pending, ReadView::Data(chunk));
    drain(next, action)
}

/// A sequence of chunks fed in order from `v`: the final state and all the
/// writes made, in order.
pub open spec fn feed_all(v: SessionView, chunks: Seq<Seq<u8>>) -> (SessionView, Seq<Seq<u8>>)
    decreases chunks.len(),
{
    if chunks.len() == 0 {
        (v, Seq::empty())
    } else {
        let (mid, out) = feed_all(v, chunks.drop_last());
        let (last, more) = feed(mid, chunks.last());
        (last, out + more)
    }
}

/// The chunks of a stream joined into one sequence of bytes.
pub open spec fn joined(chunks: Seq<Seq<u8>>) -> Seq<u8>
    decreases chunks.len(),
{
    if chunks.len() == 0 {
        Seq::empty()
    } else {
        joined(chunks.drop_last()) + chunks.last()
    }
}

/// Lines as they travel on the wire: each followed by a terminator.
pub open spec fn framed(lines: Seq<Seq<u8>>) -> Seq<u8>
    decreases lines.len(),
{
    if lines.len() == 0 {
        Seq::empty()
    } else {
        framed(lines.drop_last()) + echo_of(lines.last())
    }
}

/// The complete lines of a byte stream, in order, each with its terminator.
pub open spec fn split_lines(s: Seq<u8>) -> Seq<Seq<u8>>
    decreases s.len(),
{
    let k = first_line_len(s) as int;
    if 0 < k <= s.len() {
        seq![s.subrange(0, k)] + split_lines(s.subrange(k, s.len() as int))
    } else {
        Seq::empty()
    }
}

/// What follows the complete lines of a byte stream.
pub open spec fn leftover(s: Seq<u8>) -> Seq<u8>
    decreases s.len(),
{
    let k = first_line_len(s) as int;
    if 0 < k <= s.len() {
        leftover(s.subrange(k, s.len() as int))
    } else {
        s
    }
}

/// Chunks that two connections receive, interleaved: `true` marks a chunk of
/// the first connection, `false` one of the second.
pub open spec fn chunks_of(schedule: Seq<(bool, Seq<u8>)>, first: bool) -> Seq<Seq<u8>>
    decreases schedule.len(),
{
    if schedule.len() == 0 {
        Seq::empty()
    } else if schedule.last().0 == first {
        chunks_of(schedule.drop_last(), first).push(schedule.last().1)
    } else {
        chunks_of(schedule.drop_last(), first)
    }
}

/// Two handlers, each fed the chunks that the schedule gives its connection,
/// in the schedule's order.
pub open spec fn feed_pair(schedule: Seq<(bool, Seq<u8>)>) -> (
    (SessionView, Seq<Seq<u8>>),
    (SessionView, Seq<Seq<u8>>),
)
    decreases schedule.len(),
{
    if schedule.len() == 0 {
        ((fresh(), Seq::empty()), (fresh(), Seq::empty()))
    } else {
        let (a, b) = feed_pair(schedule.drop_last());
        let (first, chunk) = schedule.last();
        if first {
            let (next, more) = feed(a.0, chunk);
            ((next, a.1 + more), b)
        } else {
            let (next, more) = feed(b.0, chunk);
            (a, (next, b.1 + more))
        }
    }
}

/// A first line stays the first line whatever follows it.
proof fn lemma_first_line_len_append(s: Seq<u8>, c: Seq<u8>)
    requires
        first_line_len(s) > 0,
    ensures
        first_line_len(s + c) == first_line_len(s),
    decreases s.len(),
{
    assert((s + c)[0] == s[0]);
    if s[0] != NEWLINE {
        assert((s + c).drop_first() =~= s.drop_first() + c);
        lemma_first_line_len_append(s.drop_first(), c);
    }
}

/// The line ended by the first terminator is the first line.
proof fn lemma_first_line_at(s: Seq<u8>, m: int)
    requires
        0 <= m < s.len(),
        s[m] == NEWLINE,
        forall|j: int| 0 <= j < m ==> s[j] != NEWLINE,
    ensures
        first_line_len(s) == m + 1,
{
    lemma_first_line_len(s);
    assert(has_newline(s));
    let k = first_line_len(s) as int;
    if k - 1 < m {
        assert(s[k - 1] != NEWLINE);
    }
    if k - 1 > m {
        assert(s[m] != NEWLINE);
    }
}

/// Splitting a stream at its leftover: what a further chunk completes is
/// decided by the leftover and the chunk alone.
proof fn lemma_split_append(s: Seq<u8>, c: Seq<u8>)
    ensures
        split_lines(s + c) == split_lines(s) + split_lines(leftover(s) + c),
        leftover(s + c) == leftover(leftover(s) + c),
    decreases s.len(),
{
    lemma_first_line_len(s);
    let k = first_line_len(s) as int;
    if k > 0 {
        lemma_first_line_len_append(s, c);
        let t = s.subrange(k, s.len() as int);
        lemma_first_line_len(s + c);
        assert((s + c).subrange(0, k) =~= s.subrange(0, k));
        assert((s + c).subrange(k, (s + c).len() as int) =~= t + c);
        lemma_split_append(t, c);
        assert(split_lines(s + c) =~= split_lines(s) + split_lines(leftover(s) + c));
    } else {
        assert(split_lines(s + c) =~= split_lines(s) + split_lines(leftover(s) + c));
    }
}

/// Writing out what an echoing handler holds: the write in hand, then each
/// complete line buffered, after which it reads with the leftover.
proof fn lemma_drain(p: Seq<u8>, bytes: Seq<u8>)
    ensures
        drain(SessionView { phase: Phase::Echoing, pending: p }, ActionView::Write(bytes)) == (
            SessionView { phase: Phase::Reading, pending: leftover(p) },
            seq![bytes] + split_lines(p),
        ),
    decreases p.len(),
{
    lemma_first_line_len(p);
    let k = first_line_len(p) as int;
    if k > 0 {
        let t = p.subrange(k, p.len() as int);
        lemma_drain(t, p.subrange(0, k));
        assert(seq![bytes] + (seq![p.subrange(0, k)] + split_lines(t)) =~= seq![bytes]
            + split_lines(p));
    } else {
        assert(seq![bytes] + split_lines(p) =~= seq![bytes]);
    }
}

/// Feeding a chunk to a reading handler writes back each complete line of
/// what it holds and the chunk, one write per line, and leaves it reading
/// with the leftover.
proof fn lemma_feed(q: Seq<u8>, c: Seq<u8>)
    ensures
        feed(SessionView { phase: Phase::Reading, pending: q }, c) == (
            SessionView { phase: Phase::Reading, pending: leftover(q + c) },
            split_lines(q + c),
        ),
{
    let all = q + c;
    lemma_first_line_len(all);
    let k = first_line_len(all) as int;
    if k > 0 {
        lemma_drain(all.subrange(k, all.len() as int), all.subrange(0, k));
    }
}

/// A handler fed any chunks of a stream has made one write for each complete
/// line of the stream, in order, each the line unchanged with its terminator,
/// and holds the rest.
pub proof fn lemma_echo_stream(chunks: Seq<Seq<u8>>)
    ensures
        feed_all(fresh(), chunks) == (
            SessionView { phase: Phase::Reading, pending: leftover(joined(chunks)) },
            split_lines(joined(chunks)),
        ),
    decreases chunks.len(),
{
    if chunks.len() == 0 {
        assert(split_lines(Seq::<u8>::empty()) =~= Seq::<Seq<u8>>::empty());
    } else {
        let front = chunks.drop_last();
        let s = joined(front);
        let c = chunks.last();
        lemma_echo_stream(front);
        lemma_feed(leftover(s), c);
        lemma_split_append(s, c);
    }
}

proof fn lemma_framed_lines(lines: Seq<Seq<u8>>)
    requires
        forall|i: int| 0 <= i < lines.len() ==> !has_newline(#[trigger] lines[i]),
    ensures
        split_lines(framed(lines)) == lines.map_values(|l: Seq<u8>| echo_of(l)),
        leftover(framed(lines)) == Seq::<u8>::empty(),
    decreases lines.len(),
{
    assert(leftover(Seq::<u8>::empty()) == Seq::<u8>::empty());
    if lines.len() == 0 {
        assert(split_lines(framed(lines)) =~= lines.map_values(|l: Seq<u8>| echo_of(l)));
    } else {
        let front = lines.drop_last();
        assert forall|i: int| 0 <= i < front.len() implies !has_newline(#[trigger] front[i]) by {
            assert(front[i] == lines[i]);
        }
        lemma_framed_lines(front);
        let f = framed(front);
        let l = lines.last();
        assert(!has_newline(l));
        let e = echo_of(l);
        assert forall|j: int| 0 <= j < l.len() implies e[j] != NEWLINE by {
            if e[j] == NEWLINE {
                assert(l[j] == NEWLINE);
            }
        }
        lemma_first_line_at(e, l.len() as int);
        assert(e.subrange(0, e.len() as int) =~= e);
        assert(e.subrange(e.len() as int, e.len() as int) =~= Seq::<u8>::empty());
        assert(split_lines(Seq::<u8>::empty()) =~= Seq::<Seq<u8>>::empty());
        assert(split_lines(e) =~= seq![e]);
        lemma_split_append(f, e);
        assert(Seq::<u8>::empty() + e =~= e);
        assert(leftover(e) == leftover(Seq::<u8>::empty()));
        assert(split_lines(framed(lines)) =~= lines.map_values(|l: Seq<u8>| echo_of(l)));
    }
}

/// Lines sent on one connection, in any split into chunks, come back as
/// they were sent: one write per line, the i-th being line i with its
/// terminator, in order, and nothing else.
pub proof fn lemma_lines_echoed_in_order(lines: Seq<Seq<u8>>, chunks: Seq<Seq<u8>>)
    requires
        forall|i: int| 0 <= i < lines.len() ==> !has_newline(#[trigger] lines[i]),
        joined(chunks) == framed(lines),
    ensures
        feed_all(fresh(), chunks).1.len() == lines.len(),
        forall|i: int| 0 <= i < lines.len() ==> #[trigger] feed_all(fresh(), chunks).1[i] == echo_of(lines[i]),
        feed_all(fresh(), chunks).0 == fresh(),
{
    lemma_echo_stream(chunks);
    lemma_framed_lines(lines);
}

/// A line sent to a reading handler is written back alone, exactly, with its
/// terminator, before any byte after it is taken: whatever followed it in the
/// same read waits.
pub proof fn lemma_line_echoed_alone(pending: Seq<u8>, line: Seq<u8>, rest: Seq<u8>)
    requires
        !has_newline(pending),
        !has_newline(line),
    ensures
        after_read(pending, ReadView::Data(echo_of(line) + rest)) == (
            SessionView { phase: Phase::Echoing, pending: rest },
            ActionView::Write(echo_of(pending + line)),
        ),
{
    let all = pending + (echo_of(line) + rest);
    let m = (pending + line).len() as int;
    assert(all =~= echo_of(pending + line) + rest);
    assert forall|j: int| 0 <= j < m implies all[j] != NEWLINE by {
        if j < pending.len() {
            if all[j] == NEWLINE {
                assert(pending[j] == NEWLINE);
            }
        } else {
            if all[j] == NEWLINE {
                assert(line[j - pending.len()] == NEWLINE);
            }
        }
    }
    lemma_first_line_at(all, m);
    assert(all.subrange(0, m + 1) =~= echo_of(pending + line));
    assert(all.subrange(m + 1, all.len() as int) =~= rest);
}

/// When the peer closes its write side, a reading handler closes without an
/// error: at once, or after writing back the unterminated last line.
pub proof fn lemma_end_of_stream_closes(v: SessionView)
    requires
        wf_view(v),
        v.phase == Phase::Reading,
    ensures
        ({
            let (next, action) = after_read(v.pending, ReadView::EndOfStream);
            ||| v.pending.len() == 0 && next.phase == Phase::Closed && action == ActionView::Close(
                CloseReason::EndOfStream,
            )
            ||| v.pending.len() > 0 && action == ActionView::Write(echo_of(v.pending))
                && after_write(next, true).0.phase == Phase::Closed && after_write(next, true).1
                == ActionView::Close(CloseReason::EndOfStream)
        }),
{
}

/// Two connections served at once, their chunks arriving interleaved in any
/// order: each handler ends as if it had been fed its own connection's chunks
/// alone, so each writes back the lines of its own stream only.
pub proof fn lemma_connections_isolated(schedule: Seq<(bool, Seq<u8>)>)
    ensures
        feed_pair(schedule).0 == feed_all(fresh(), chunks_of(schedule, true)),
        feed_pair(schedule).1 == feed_all(fresh(), chunks_of(schedule, false)),
        feed_pair(schedule).0.1 == split_lines(joined(chunks_of(schedule, true))),
        feed_pair(schedule).1.1 == split_lines(joined(chunks_of(schedule, false))),
    decreases schedule.len(),
{
    if schedule.len() > 0 {
        let front = schedule.drop_last();
        lemma_connections_isolated(front);
        let (first, chunk) = schedule.last();
        if first {
            let own = chunks_of(schedule, true);
            assert(own.drop_last() =~= chunks_of(front, true));
        } else {
            let own = chunks_of(schedule, false);
            assert(own.drop_last() =~= chunks_of(front, false));
        }
    }
    lemma_echo_stream(chunks_of(schedule, true));
    lemma_echo_stream(chunks_of(schedule, false));
}

} // verus!
