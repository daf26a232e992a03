use vstd::prelude::*;

verus! {

/// The line terminator of the echo protocol.
pub const NEWLINE: u8 = 0x0a;

/// Where a connection's handler stands.
#[derive(Clone, Copy, Debug, PartialEq, Eq, Structural)]
pub enum Phase {
    /// Waiting for the outcome of a read.
    Reading,
    /// Waiting for the outcome of writing back one line; the next buffered
    /// line, or else a read, follows.
    Echoing,
    /// Waiting for the outcome of writing back the last, unterminated line;
    /// closing follows.
    Finishing,
    /// The connection is released; nothing follows.
    Closed,
}

/// Why a connection was released.
#[derive(Clone, Copy, Debug, PartialEq, Eq, Structural)]
pub enum CloseReason {
    /// The peer closed its write side; not an error.
    EndOfStream,
    /// A read failed.
    ReadFailed,
    /// A write failed.
    WriteFailed,
}

/// What a read on the connection gave.
#[derive(Debug, PartialEq, Eq)]
pub enum ReadOutcome {
    /// One or more bytes arrived.
    Data(Vec<u8>),
    /// The peer closed its write side.
    EndOfStream,
    /// The read failed.
    Failed,
}

/// A read outcome, with its bytes as a sequence.
pub enum ReadView {
    Data(Seq<u8>),
    EndOfStream,
    Failed,
}

impl View for ReadOutcome {
    type V = ReadView;

    open spec fn view(&self) -> ReadView {
        match self {
            ReadOutcome::Data(bytes) => ReadView::Data(bytes@),
            ReadOutcome::EndOfStream => ReadView::EndOfStream,
            ReadOutcome::Failed => ReadView::Failed,
        }
    }
}

/// What the handler asks to be done next.
#[derive(Debug, PartialEq, Eq)]
pub enum Action {
    /// Read from the connection.
    Read,
    /// Write all of these bytes to the connection.
    Write(Vec<u8>),
    /// Release the connection.
    Close(CloseReason),
}

/// An action, with its bytes as a sequence.
pub enum ActionView {
    Read,
    Write(Seq<u8>),
    Close(CloseReason),
}

impl View for Action {
    type V = ActionView;

    open spec fn view(&self) -> ActionView {
        match self {
            Action::Read => ActionView::Read,
            Action::Write(bytes) => ActionView::Write(bytes@),
            Action::Close(reason) => ActionView::Close(*reason),
        }
    }
}

/// The abstract state of a handler: its phase, and the bytes that arrived but
/// have not been written back yet. While reading, these are the start of a
/// line whose terminator has not arrived; while echoing, further lines of the
/// last read may wait there too.
#[verifier::ext_equal]
pub struct SessionView {
    pub phase: Phase,
    pub pending: Seq<u8>,
}

/// The echo handler of one connection: a state machine driven by the outcomes
/// of reads and writes, which answers each with the next action.
pub struct Session {
    phase: Phase,
    pending: Vec<u8>,
}

impl View for Session {
    type V = SessionView;

    closed spec fn view(&self) -> SessionView {
        SessionView { phase: self.phase, pending: self.pending@ }
    }
}

/// Whether a line terminator occurs in `s`.
pub open spec fn has_newline(s: Seq<u8>) -> bool {
    exists|i: int| 0 <= i < s.len() && s[i] == NEWLINE
}

/// The length of the first line of `s`, its terminator included; 0 when `s`
/// holds no terminator.
pub open spec fn first_line_len(s: Seq<u8>) -> nat
    decreases s.len(),
{
    if s.len() == 0 {
        0
    } else if s[0] == NEWLINE {
        1
    } else if first_line_len(s.drop_first()) == 0 {
        0
    } else {
        first_line_len(s.drop_first()) + 1
    }
}

/// A line written back: its bytes and a terminator.
pub open spec fn echo_of(line: Seq<u8>) -> Seq<u8> {
    line.push(NEWLINE)
}

/// A state is well formed when a reading handler holds no terminator, and a
/// handler that finishes or has closed holds nothing.
pub open spec fn wf_view(v: SessionView) -> bool {
    &&& v.phase == Phase::Reading ==> !has_newline(v.pending)
    &&& (v.phase == Phase::Finishing || v.phase == Phase::Closed) ==> v.pending.len() == 0
}

/// With `pending` buffered: write back its first line alone and keep the rest,
/// or, when it holds no complete line, read.
pub open spec fn next_line(pending: Seq<u8>) -> (SessionView, ActionView) {
    let k = first_line_len(pending) as int;
    if k > 0 {
        (
            SessionView { phase: Phase::Echoing, pending: pending.subrange(k, pending.len() as int) },
            ActionView::Write(pending.subrange(0, k)),
        )
    } else {
        (SessionView { phase: Phase::Reading, pending }, ActionView::Read)
    }
}

/// The state and action that follow a read outcome in the reading phase.
pub open spec fn after_read(pending: Seq<u8>, outcome: ReadView) -> (SessionView, ActionView) {
    match outcome {
        ReadView::Data(chunk) => next_line(pending + chunk),
        ReadView::EndOfStream => {
            if pending.len() > 0 {
                (
                    SessionView { phase: Phase::Finishing, pending: Seq::empty() },
                    ActionView::Write(echo_of(pending)),
                )
            } else {
                (
                    SessionView { phase: Phase::Closed, pending: Seq::empty() },
                    ActionView::Close(CloseReason::EndOfStream),
                )
            }
        },
        ReadView::Failed => (
            SessionView { phase: Phase::Closed, pending: Seq::empty() },
            ActionView::Close(CloseReason::ReadFailed),
        ),
    }
}

/// The state and action that follow a write outcome in a writing phase.
pub open spec fn after_write(v: SessionView, written: bool) -> (SessionView, ActionView) {
    if !written {
        (
            SessionView { phase: Phase::Closed, pending: Seq::empty() },
            ActionView::Close(CloseReason::WriteFailed),
        )
    } else if v.phase == Phase::Echoing {
        next_line(v.pending)
    } else {
        (
            SessionView { phase: Phase::Closed, pending: Seq::empty() },
            ActionView::Close(CloseReason::EndOfStream),
        )
    }
}

/// What the first line of a stream is: it ends at the first terminator, and
/// there is no first line only where there is no terminator.
pub proof fn lemma_first_line_len(s: Seq<u8>)
    ensures
        first_line_len(s) <= s.len(),
        first_line_len(s) > 0 ==> s[first_line_len(s) - 1] == NEWLINE,
        forall|j: int| 0 <= j < first_line_len(s) - 1 ==> s[j] != NEWLINE,
        first_line_len(s) == 0 <==> !has_newline(s),
    decreases s.len(),
{
    if s.len() > 0 && s[0] != NEWLINE {
        let t = s.drop_first();
        lemma_first_line_len(t);
        assert forall|j: int| 0 <= j < first_line_len(s) - 1 implies s[j] != NEWLINE by {
            if j > 0 {
                assert(s[j] == t[j - 1]);
            }
        }
        if has_newline(s) {
            let i = choose|i: int| 0 <= i < s.len() && s[i] == NEWLINE;
            assert(t[i - 1] == NEWLINE);
        }
        if has_newline(t) {
            let i = choose|i: int| 0 <= i < t.len() && t[i] == NEWLINE;
            assert(s[i + 1] == NEWLINE);
        }
    } else if s.len() > 0 {
        assert(has_newline(s));
    }
}

/// The first terminator of `buf`, as the length of its first line; 0 when it
/// has none.
fn first_line_end(buf: &Vec<u8>) -> (k: usize)
    ensures
        k == first_line_len(buf@),
{
    let n = buf.len();
    let mut i: usize = 0;
    proof {
        lemma_first_line_len(buf@);
    }
    while i < n
        invariant
            i <= n,
            n == buf@.len(),
            forall|j: int| 0 <= j < i ==> buf@[j] != NEWLINE,
            first_line_len(buf@) <= buf@.len(),
            first_line_len(buf@) > 0 ==> buf@[first_line_len(buf@) - 1] == NEWLINE,
            forall|j: int| 0 <= j < first_line_len(buf@) - 1 ==> buf@[j] != NEWLINE,
            first_line_len(buf@) == 0 <==> !has_newline(buf@),
        decreases n - i,
    {
        if buf[i] == NEWLINE {
            assert(has_newline(buf@));
            return i + 1;
        }
        i = i + 1;
    }
    proof {
        if first_line_len(buf@) > 0 {
            assert(buf@[first_line_len(buf@) - 1] == NEWLINE);
        }
    }
    0
}

/// Appends the bytes of `src` from `from` up to `to`.
fn append_range(dst: &mut Vec<u8>, src: &Vec<u8>, from: usize, to: usize)
    requires
        from <= to <= src@.len(),
    ensures
        final(dst)@ == old(dst)@ + src@.subrange(from as int, to as int),
{
    let mut i: usize = from;
    while i < to
        invariant
            from <= i <= to <= src@.len(),
            dst@ == old(dst)@ + src@.subrange(from as int, i as int),
        decreases to - i,
    {
        dst.push(src[i]);
        proof {
            assert(src@.subrange(from as int, i + 1) =~= src@.subrange(from as int, i as int).push(
                src@[i as int],
            ));
        }
        i = i + 1;
    }
    proof {
        assert(dst@ =~= old(dst)@ + src@.subrange(from as int, to as int));
    }
}

impl Session {
    /// The well-formedness every handler keeps.
    pub open spec fn wf(&self) -> bool {
        wf_view(self@)
    }

    /// A handler for a newly accepted connection: it reads first.
    pub fn new() -> (r: Session)
        ensures
            r@.phase == Phase::Reading,
            r@.pending == Seq::<u8>::empty(),
            r.wf(),
    {
        let r = Session { phase: Phase::Reading, pending: Vec::new() };
        assert(!has_newline(r.pending@));
        r
    }

    /// The phase the handler stands in.
    pub fn phase(&self) -> (r: Phase)
        ensures
            r == self@.phase,
    {
        self.phase
    }

    /// Whether the handler awaits a read outcome.
    pub fn is_reading(&self) -> (r: bool)
        ensures
            r == (self@.phase == Phase::Reading),
    {
        self.phase == Phase::Reading
    }

    /// Whether the handler awaits a write outcome.
    pub fn is_writing(&self) -> (r: bool)
        ensures
            r == (self@.phase == Phase::Echoing || self@.phase == Phase::Finishing),
    {
        self.phase == Phase::Echoing || self.phase == Phase::Finishing
    }

    /// Whether the connection has been released.
    pub fn is_closed(&self) -> (r: bool)
        ensures
            r == (self@.phase == Phase::Closed),
    {
        self.phase == Phase::Closed
    }

    /// Writes back the first buffered line alone, or reads when no complete
    /// line is buffered.
    fn take_line(&mut self) -> (r: Action)
        ensures
            final(self)@ == next_line(old(self)@.pending).0,
            r@ == next_line(old(self)@.pending).1,
            wf_view(next_line(old(self)@.pending).0),
    {
        let ghost p = self.pending@;
        proof {
            lemma_first_line_len(p);
        }
        let k = first_line_end(&self.pending);
        if k == 0 {
            self.phase = Phase::Reading;
            Action::Read
        } else {
            let n = self.pending.len();
            let mut line: Vec<u8> = Vec::new();
            let mut rest: Vec<u8> = Vec::new();
            append_range(&mut line, &self.pending, 0, k);
            append_range(&mut rest, &self.pending, k, n);
            proof {
                assert(line@ =~= p.subrange(0, k as int));
                assert(rest@ =~= p.subrange(k as int, n as int));
            }
            self.pending = rest;
            self.phase = Phase::Echoing;
            Action::Write(line)
        }
    }

    /// Takes the outcome of a read. The bytes that arrived join those waiting;
    /// the first complete line among them is written back alone, terminator
    /// included, and the rest waits. With no complete line the handler reads
    /// again. At the end of the stream an unterminated last line is written
    /// back with a terminator before the connection closes. A failed read
    /// closes the connection.
    pub fn on_read(&mut self, outcome: ReadOutcome) -> (r: Action)
        requires
            old(self).wf(),
            old(self)@.phase == Phase::Reading,
        ensures
            final(self).wf(),
            (final(self)@, r@) == after_read(old(self)@.pending, outcome@),
    {
        match outcome {
            ReadOutcome::Data(chunk) => {
                let n = chunk.len();
                append_range(&mut self.pending, &chunk, 0, n);
                proof {
                    assert(chunk@.subrange(0, n as int) =~= chunk@);
                }
                self.take_line()
            },
            ReadOutcome::EndOfStream => {
                if self.pending.len() > 0 {
                    let mut out: Vec<u8> = Vec::new();
                    std::mem::swap(&mut out, &mut self.pending);
                    out.push(NEWLINE);
                    self.phase = Phase::Finishing;
                    proof {
                        assert(self.pending@ =~= Seq::<u8>::empty());
                    }
                    Action::Write(out)
                } else {
                    self.phase = Phase::Closed;
                    Action::Close(CloseReason::EndOfStream)
                }
            },
            ReadOutcome::Failed => {
                self.pending = Vec::new();
                self.phase = Phase::Closed;
                Action::Close(CloseReason::ReadFailed)
            },
        }
    }

    /// Takes the outcome of a write: whether all its bytes went out. After a
    /// line the handler writes back the next buffered line, or reads again
    /// when none is complete; after the last line of the stream it closes; a
    /// failed write closes the connection.
    pub fn on_write(&mut self, written: bool) -> (r: Action)
        requires
            old(self).wf(),
            old(self)@.phase == Phase::Echoing || old(self)@.phase == Phase::Finishing,
        ensures
            final(self).wf(),
            (final(self)@, r@) == after_write(old(self)@, written),
    {
        if !written {
            self.pending = Vec::new();
            self.phase = Phase::Closed;
            Action::Close(CloseReason::WriteFailed)
        } else if self.phase == Phase::Echoing {
            self.take_line()
        } else {
            self.phase = Phase::Closed;
            Action::Close(CloseReason::EndOfStream)
        }
    }
}

} // verus!
