use vstd::prelude::*;
use crate::file_model::{write_at, MAX_OFFSET};

verus! {

/// The size of the buffer through which data is copied.
pub const COPY_BUF_LEN: usize = 1024;

/// A sequence of `n` copies of `v`.
pub open spec fn fill<T>(v: T, n: nat) -> Seq<T> {
    Seq::new(n, |_i: int| v)
}

/// The system call that a copy needs next. Offsets are absolute.
pub enum CopyAction {
    /// Find the source's length: seek to its end.
    SourceLength,
    /// Find the first hole of the source at or after the offset.
    FindHole(u64),
    /// Find the first data of the source at or after the offset.
    FindData(u64),
    /// Move the source's offset here.
    SeekSource(u64),
    /// Read up to this many bytes from the source.
    Read(usize),
    /// Write these bytes to the destination.
    Write(Vec<u8>),
    /// Move the destination's offset here, past a hole.
    SeekDest(u64),
    /// Set the destination's length.
    SetLength(u64),
    /// The copy is complete: close both files.
    Finish,
}

/// What the system call of the current step returned.
pub enum CopyEvent {
    /// A seek left the offset here.
    Position(u64),
    /// No data follows the offset of a `FindData`.
    NoData,
    /// A read returned these bytes; none at the end of the file.
    Data(Vec<u8>),
    /// A write wrote this many bytes.
    Written(usize),
    /// A call without a result succeeded.
    Done,
}

/// Why an event was refused.
#[derive(PartialEq, Eq, Structural, Clone, Copy, Debug)]
pub enum CopyError {
    /// The copy is complete.
    Finished,
    /// The event does not answer the current step.
    UnexpectedEvent,
    /// The source ended before its length said it would.
    SourceChanged,
    /// The destination took fewer bytes than it was given.
    ShortWrite,
}

/// Where a copy stands.
#[derive(PartialEq, Eq, Structural, Clone, Copy, Debug)]
pub enum Phase {
    Length,
    Hole,
    Data,
    SeekSource,
    Read,
    Write,
    SeekDest,
    SetLength,
    Finished,
}

/// The visible state of a copy: its phase, the source's length, the offset
/// reached, the bounds of the hole ahead, and the bytes waiting to be written.
pub struct CopyState {
    pub phase: Phase,
    pub len: nat,
    pub offset: nat,
    pub hole_start: nat,
    pub hole_end: nat,
    pub pending: Seq<u8>,
}

/// The state that follows `s` when its step gets the accepted answer `ev`.
pub open spec fn step_state(s: CopyState, ev: CopyEvent) -> CopyState {
    match (s.phase, ev) {
        (Phase::Length, CopyEvent::Position(p)) => CopyState {
            phase: if p > 0 { Phase::Hole } else { Phase::SetLength },
            len: p as nat,
            ..s
        },
        (Phase::Hole, CopyEvent::Position(p)) => if p < s.len {
            CopyState { phase: Phase::Data, hole_start: p as nat, ..s }
        } else {
            CopyState { phase: Phase::SeekSource, hole_start: p as nat, hole_end: p as nat, ..s }
        },
        (Phase::Data, CopyEvent::Position(p)) => CopyState {
            phase: if s.offset < s.hole_start { Phase::SeekSource } else { Phase::SeekDest },
            hole_end: p as nat,
            ..s
        },
        (Phase::Data, CopyEvent::NoData) => CopyState {
            phase: if s.offset < s.hole_start { Phase::SeekSource } else { Phase::SeekDest },
            hole_end: s.len,
            ..s
        },
        (Phase::SeekSource, CopyEvent::Position(_)) => CopyState { phase: Phase::Read, ..s },
        (Phase::Read, CopyEvent::Data(b)) => CopyState {
            phase: Phase::Write,
            pending: if b@.len() > s.hole_start - s.offset {
                b@.take(s.hole_start - s.offset)
            } else {
                b@
            },
            ..s
        },
        (Phase::Write, CopyEvent::Written(_)) => {
            let off = s.offset + s.pending.len();
            CopyState {
                phase: if off < s.hole_start {
                    Phase::Read
                } else if s.hole_start < s.len {
                    Phase::SeekDest
                } else {
                    Phase::SetLength
                },
                offset: off,
                pending: Seq::empty(),
                ..s
            }
        },
        (Phase::SeekDest, CopyEvent::Position(_)) => CopyState {
            phase: if s.hole_end < s.len { Phase::Hole } else { Phase::SetLength },
            offset: s.hole_end,
            ..s
        },
        (Phase::SetLength, CopyEvent::Done) => CopyState { phase: Phase::Finished, ..s },
        _ => s,
    }
}

/// A measure of the work left to a copy whose source length is known: every
/// accepted answer lowers it, so a copy ends after finitely many steps.
pub open spec fn remaining(s: CopyState) -> nat {
    let rank: nat = match s.phase {
        Phase::Length => 8,
        Phase::Hole => 7,
        Phase::Data => 6,
        Phase::SeekSource => 5,
        Phase::Read => 4,
        Phase::Write => 3,
        Phase::SeekDest => 2,
        Phase::SetLength => 1,
        Phase::Finished => 0,
    };
    if s.offset <= s.len {
        8 * (s.len - s.offset) as nat + rank
    } else {
        rank
    }
}

/// Whether `r` is the system call that a copy in state `s` needs.
pub open spec fn action_for(s: CopyState, r: CopyAction) -> bool {
    match s.phase {
        Phase::Length => r is SourceLength,
        Phase::Hole => r == CopyAction::FindHole(s.offset as u64),
        Phase::Data => r == CopyAction::FindData(s.hole_start as u64),
        Phase::SeekSource => r == CopyAction::SeekSource(s.offset as u64),
        Phase::Read => r == CopyAction::Read(COPY_BUF_LEN),
        Phase::Write => r is Write && r->Write_0@ == s.pending,
        Phase::SeekDest => r == CopyAction::SeekDest(s.hole_end as u64),
        Phase::SetLength => r == CopyAction::SetLength(s.len as u64),
        Phase::Finished => r is Finish,
    }
}

/// Whether `ev` is a possible answer to the step of a copy in state `s`.
pub open spec fn accepts(s: CopyState, ev: CopyEvent) -> bool {
    match (s.phase, ev) {
        (Phase::Length, CopyEvent::Position(p)) => p <= MAX_OFFSET,
        (Phase::Hole, CopyEvent::Position(p)) => s.offset <= p <= s.len,
        (Phase::Data, CopyEvent::Position(p)) => s.hole_start < p <= s.len,
        (Phase::Data, CopyEvent::NoData) => true,
        (Phase::SeekSource, CopyEvent::Position(p)) => p == s.offset,
        (Phase::Read, CopyEvent::Data(b)) => 0 < b@.len() <= COPY_BUF_LEN,
        (Phase::Write, CopyEvent::Written(n)) => n == s.pending.len(),
        (Phase::SeekDest, CopyEvent::Position(p)) => p == s.hole_end,
        (Phase::SetLength, CopyEvent::Done) => true,
        _ => false,
    }
}

/// The error that `ev` brings where a copy in state `s` refuses it.
pub open spec fn refusal(s: CopyState, ev: CopyEvent) -> CopyError {
    match (s.phase, ev) {
        (Phase::Finished, _) => CopyError::Finished,
        (Phase::Read, CopyEvent::Data(b)) => if b@.len() == 0 {
            CopyError::SourceChanged
        } else {
            CopyError::UnexpectedEvent
        },
        (Phase::Write, CopyEvent::Written(_)) => CopyError::ShortWrite,
        _ => CopyError::UnexpectedEvent,
    }
}

/// `after` is `before` once its step got the accepted answer `ev`: the state
/// moves as `step_state` says; a write adds the bytes it wrote to what is
/// known of the source, and a seek of the destination past a hole adds the
/// hole.
pub open spec fn advanced_by(before: HoleCopy, after: HoleCopy, ev: CopyEvent) -> bool {
    let s = before.state();
    &&& after.state() == step_state(s, ev)
    &&& if s.phase == Phase::Write {
        &&& after.source_view() == before.source_view() + s.pending
        &&& after.source_holes() == before.source_holes() + fill(false, s.pending.len())
        &&& after.dest_written() == before.dest_written() + fill(true, s.pending.len())
    } else if s.phase == Phase::SeekDest {
        let gap = (s.hole_end - s.offset) as nat;
        &&& after.source_view() == before.source_view() + fill(0u8, gap)
        &&& after.source_holes() == before.source_holes() + fill(true, gap)
        &&& after.dest_written() == before.dest_written() + fill(false, gap)
    } else {
        &&& after.source_view() == before.source_view()
        &&& after.source_holes() == before.source_holes()
        &&& after.dest_written() == before.dest_written()
    }
}

/// A sparse-preserving copy of one file to another, as a state machine.
///
/// The source is walked by extents: at `offset`, the next hole starts at
/// `hole_start` and ends at `hole_end`. The data before `hole_start` goes
/// through the buffer; the destination then skips the hole with a seek, so
/// that it gets a hole of the same length.
pub struct HoleCopy {
    phase: Phase,
    len: u64,
    offset: u64,
    hole_start: u64,
    hole_end: u64,
    chunk: Vec<u8>,
    source: Ghost<Seq<u8>>,
    holes: Ghost<Seq<bool>>,
    dest: Ghost<Seq<u8>>,
    dest_data: Ghost<Seq<bool>>,
}

impl HoleCopy {
    /// The source's bytes before the offset reached, as the answers showed
    /// them: what the reads returned, and zeros in holes.
    pub closed spec fn source_view(self) -> Seq<u8> {
        self.source@
    }

    /// For each source byte before the offset reached, whether it lies in a
    /// hole that the source reported.
    pub closed spec fn source_holes(self) -> Seq<bool> {
        self.holes@
    }

    /// The destination's bytes. The destination is empty at the start: it is
    /// opened with truncation.
    pub closed spec fn dest_view(self) -> Seq<u8> {
        self.dest@
    }

    /// For each destination byte before the offset reached, whether a write
    /// put it there.
    pub closed spec fn dest_written(self) -> Seq<bool> {
        self.dest_data@
    }

    /// The source's length, once known.
    pub closed spec fn source_len(self) -> nat {
        self.len as nat
    }

    /// The copy is complete.
    pub open spec fn is_finished(self) -> bool {
        self.state().phase == Phase::Finished
    }

    /// The copy's invariant: the destination matches the source up to the
    /// offset reached, it was written exactly where the source has data, and
    /// the extent bounds are in order for the current phase.
    pub closed spec fn wf(self) -> bool {
        &&& self.len <= MAX_OFFSET
        &&& self.offset <= self.len
        &&& self.source@.len() == self.offset
        &&& self.holes@.len() == self.offset
        &&& self.dest_data@.len() == self.offset
        &&& self.dest@.len() <= self.offset
        &&& forall|i: int| 0 <= i < self.dest@.len() ==> self.dest@[i] == #[trigger] self.source@[i]
        &&& forall|i: int|
            self.dest@.len() <= i < self.offset ==> #[trigger] self.source@[i] == 0u8
        &&& forall|i: int| 0 <= i < self.offset && #[trigger] self.holes@[i] ==> self.source@[i] == 0u8
        &&& forall|i: int| 0 <= i < self.offset ==> #[trigger] self.dest_data@[i] == !self.holes@[i]
        &&& match self.phase {
            Phase::Length => self.offset == 0 && self.dest@.len() == 0,
            Phase::Hole => self.offset < self.len,
            Phase::Data => self.offset <= self.hole_start < self.len,
            Phase::SeekSource | Phase::Read => self.offset < self.hole_start <= self.hole_end
                <= self.len && (self.hole_start < self.len ==> self.hole_start < self.hole_end),
            Phase::Write => {
                &&& self.offset < self.hole_start <= self.hole_end <= self.len
                &&& (self.hole_start < self.len ==> self.hole_start < self.hole_end)
                &&& 0 < self.chunk@.len() <= self.hole_start - self.offset
            },
            Phase::SeekDest => self.offset == self.hole_start < self.hole_end <= self.len,
            Phase::SetLength => self.offset == self.len,
            Phase::Finished => self.offset == self.len && self.dest@ == self.source@,
        }
    }

    /// The visible state of the copy.
    pub closed spec fn state(self) -> CopyState {
        CopyState {
            phase: self.phase,
            len: self.len as nat,
            offset: self.offset as nat,
            hole_start: self.hole_start as nat,
            hole_end: self.hole_end as nat,
            pending: self.chunk@,
        }
    }

    /// A copy that has not yet asked for anything.
    pub fn new() -> (r: Self)
        ensures
            r.wf(),
            r.state().phase == Phase::Length,
            r.state().offset == 0,
            r.source_view() == Seq::<u8>::empty(),
            r.source_holes() == Seq::<bool>::empty(),
            r.dest_written() == Seq::<bool>::empty(),
            r.dest_view() == Seq::<u8>::empty(),
    {
        HoleCopy {
            phase: Phase::Length,
            len: 0,
            offset: 0,
            hole_start: 0,
            hole_end: 0,
            chunk: Vec::new(),
            source: Ghost(Seq::empty()),
            holes: Ghost(Seq::empty()),
            dest: Ghost(Seq::empty()),
            dest_data: Ghost(Seq::empty()),
        }
    }

    /// The system call that the copy needs next.
    pub fn action(&self) -> (r: CopyAction)
        requires
            self.wf(),
        ensures
            action_for(self.state(), r),
    {
        match self.phase {
            Phase::Length => CopyAction::SourceLength,
            Phase::Hole => CopyAction::FindHole(self.offset),
            Phase::Data => CopyAction::FindData(self.hole_start),
            Phase::SeekSource => CopyAction::SeekSource(self.offset),
            Phase::Read => CopyAction::Read(COPY_BUF_LEN),
            Phase::Write => CopyAction::Write(self.chunk.clone()),
            Phase::SeekDest => CopyAction::SeekDest(self.hole_end),
            Phase::SetLength => CopyAction::SetLength(self.len),
            Phase::Finished => CopyAction::Finish,
        }
    }

    /// Takes the answer to the current step and moves on. An answer that the
    /// current step cannot have leaves the copy as it was.
    pub fn advance(&mut self, ev: CopyEvent) -> (r: Result<(), CopyError>)
        requires
            old(self).wf(),
        ensures
            final(self).wf(),
            r is Ok <==> accepts(old(self).state(), ev),
            r is Ok ==> final(self).state() == step_state(old(self).state(), ev),
            r is Ok && old(self).state().phase != Phase::Length ==> remaining(final(self).state())
                < remaining(old(self).state()),
            r matches Err(e) ==> *final(self) == *old(self) && e == refusal(old(self).state(), ev),
            old(self).source_view().is_prefix_of(final(self).source_view()),
            old(self).source_holes().is_prefix_of(final(self).source_holes()),
            old(self).dest_written().is_prefix_of(final(self).dest_written()),
            r is Ok ==> advanced_by(*old(self), *final(self), ev),
    {
        match (self.phase, ev) {
            (Phase::Length, CopyEvent::Position(p)) => {
                if p > MAX_OFFSET {
                    return Err(CopyError::UnexpectedEvent);
                }
                self.len = p;
                self.phase = if p > 0 { Phase::Hole } else { Phase::SetLength };
                Ok(())
            },
            (Phase::Hole, CopyEvent::Position(p)) => {
                if p < self.offset || p > self.len {
                    return Err(CopyError::UnexpectedEvent);
                }
                self.hole_start = p;
                if p < self.len {
                    self.phase = Phase::Data;
                } else {
                    self.hole_end = p;
                    self.phase = Phase::SeekSource;
                }
                Ok(())
            },
            (Phase::Data, CopyEvent::Position(p)) => {
                if p <= self.hole_start || p > self.len {
                    return Err(CopyError::UnexpectedEvent);
                }
                self.hole_end = p;
                self.phase = if self.offset < self.hole_start {
                    Phase::SeekSource
                } else {
                    Phase::SeekDest
                };
                Ok(())
            },
            (Phase::Data, CopyEvent::NoData) => {
                self.hole_end = self.len;
                self.phase = if self.offset < self.hole_start {
                    Phase::SeekSource
                } else {
                    Phase::SeekDest
                };
                Ok(())
            },
            (Phase::SeekSource, CopyEvent::Position(p)) => {
                if p != self.offset {
                    return Err(CopyError::UnexpectedEvent);
                }
                self.phase = Phase::Read;
                Ok(())
            },
            (Phase::Read, CopyEvent::Data(bytes)) => {
                if bytes.len() == 0 {
                    return Err(CopyError::SourceChanged);
                }
                if bytes.len() > COPY_BUF_LEN {
                    return Err(CopyError::UnexpectedEvent);
                }
                let room = self.hole_start - self.offset;
                let mut bytes = bytes;
                if (bytes.len() as u64) > room {
                    bytes.truncate(room as usize);
                }
                self.chunk = bytes;
                self.phase = Phase::Write;
                Ok(())
            },
            (Phase::Write, CopyEvent::Written(n)) => {
                if n != self.chunk.len() {
                    return Err(CopyError::ShortWrite);
                }
                let k = self.chunk.len() as u64;
                proof {
                    let chunk = self.chunk@;
                    let old_dest = self.dest@;
                    let off = self.offset as nat;
                    let new_source = self.source@ + chunk;
                    let new_dest = write_at(old_dest, off, chunk);
                    assert(new_dest.len() == off + chunk.len());
                    assert forall|i: int| 0 <= i < new_dest.len() implies new_dest[i]
                        == #[trigger] new_source[i] by {
                        if i < old_dest.len() {
                            assert(new_dest[i] == old_dest[i]);
                        } else if i < off {
                            assert(self.source@[i] == 0u8);
                        }
                    }
                    self.source@ = new_source;
                    self.holes@ = self.holes@ + fill(false, chunk.len());
                    self.dest_data@ = self.dest_data@ + fill(true, chunk.len());
                    self.dest@ = new_dest;
                }
                self.offset = self.offset + k;
                self.chunk = Vec::new();
                self.phase = if self.offset < self.hole_start {
                    Phase::Read
                } else if self.hole_start < self.len {
                    Phase::SeekDest
                } else {
                    Phase::SetLength
                };
                Ok(())
            },
            (Phase::SeekDest, CopyEvent::Position(p)) => {
                if p != self.hole_end {
                    return Err(CopyError::UnexpectedEvent);
                }
                let gap = self.hole_end - self.offset;
                proof {
                    self.source@ = self.source@ + fill(0u8, gap as nat);
                    self.holes@ = self.holes@ + fill(true, gap as nat);
                    self.dest_data@ = self.dest_data@ + fill(false, gap as nat);
                }
                self.offset = self.hole_end;
                self.phase = if self.offset < self.len {
                    Phase::Hole
                } else {
                    Phase::SetLength
                };
                Ok(())
            },
            (Phase::SetLength, CopyEvent::Done) => {
                proof {
                    let tail = (self.len - self.dest@.len()) as nat;
                    let new_dest = self.dest@ + fill(0u8, tail);
                    assert(new_dest =~= self.source@);
                    self.dest@ = new_dest;
                }
                self.phase = Phase::Finished;
                Ok(())
            },
            (Phase::Read, _) | (Phase::Write, _) | (Phase::SeekDest, _) | (Phase::SetLength, _)
            | (Phase::Length, _) | (Phase::Hole, _) | (Phase::Data, _) | (Phase::SeekSource, _) => {
                Err(CopyError::UnexpectedEvent)
            },
            (Phase::Finished, _) => Err(CopyError::Finished),
        }
    }
}

/// A file of `file.len()` bytes whose holes are where `holes` is true; bytes
/// in holes read as zeros.
pub open spec fn sparse_file(file: Seq<u8>, holes: Seq<bool>) -> bool {
    &&& holes.len() == file.len()
    &&& file.len() <= MAX_OFFSET
    &&& forall|i: int| 0 <= i < file.len() && #[trigger] holes[i] ==> file[i] == 0u8
}

/// `ev` is what such a file answers to the step of a copy in state `s`.
pub open spec fn answers(file: Seq<u8>, holes: Seq<bool>, s: CopyState, ev: CopyEvent) -> bool {
    match (s.phase, ev) {
        (Phase::Length, CopyEvent::Position(p)) => p == file.len(),
        (Phase::Hole, CopyEvent::Position(p)) => {
            &&& s.offset <= p <= file.len()
            &&& forall|i: int| s.offset <= i < p ==> !#[trigger] holes[i]
            &&& p < file.len() ==> holes[p as int]
        },
        (Phase::Data, CopyEvent::Position(p)) => {
            &&& s.hole_start <= p < file.len()
            &&& forall|i: int| s.hole_start <= i < p ==> #[trigger] holes[i]
            &&& !holes[p as int]
        },
        (Phase::Data, CopyEvent::NoData) => forall|i: int|
            s.hole_start <= i < file.len() ==> #[trigger] holes[i],
        (Phase::SeekSource, CopyEvent::Position(p)) => p == s.offset,
        (Phase::Read, CopyEvent::Data(b)) => b@ == file.subrange(
            s.offset as int,
            if s.offset + COPY_BUF_LEN <= file.len() {
                s.offset + COPY_BUF_LEN
            } else {
                file.len() as int
            },
        ),
        (Phase::Write, CopyEvent::Written(n)) => n == s.pending.len(),
        (Phase::SeekDest, CopyEvent::Position(p)) => p == s.hole_end,
        (Phase::SetLength, CopyEvent::Done) => true,
        _ => false,
    }
}

/// What a copy knows of its source matches the file so far.
pub open spec fn agrees(c: HoleCopy, file: Seq<u8>, holes: Seq<bool>) -> bool {
    let s = c.state();
    let extent = s.phase == Phase::SeekSource || s.phase == Phase::Read || s.phase == Phase::Write
        || s.phase == Phase::SeekDest;
    &&& s.offset <= file.len()
    &&& c.source_view() == file.take(s.offset as int)
    &&& c.source_holes() == holes.take(s.offset as int)
    &&& s.phase != Phase::Length ==> s.len == file.len()
    &&& (s.phase == Phase::Data || extent) ==> forall|i: int|
        s.offset <= i < s.hole_start ==> !#[trigger] holes[i]
    &&& s.phase == Phase::Data ==> s.hole_start < file.len() && holes[s.hole_start as int]
    &&& extent ==> forall|i: int| s.hole_start <= i < s.hole_end ==> #[trigger] holes[i]
    &&& s.phase == Phase::Write ==> s.pending == file.subrange(
        s.offset as int,
        (s.offset + s.pending.len()) as int,
    )
}

/// A copy that has not started agrees with every file.
pub proof fn lemma_new_copy_agrees(c: HoleCopy, file: Seq<u8>, holes: Seq<bool>)
    requires
        c.state().phase == Phase::Length,
        c.state().offset == 0,
        c.source_view() == Seq::<u8>::empty(),
        c.source_holes() == Seq::<bool>::empty(),
    ensures
        agrees(c, file, holes),
{
    assert(file.take(0) =~= Seq::<u8>::empty());
    assert(holes.take(0) =~= Seq::<bool>::empty());
}

/// A copy takes every answer that a sparse file gives, and what it knows of
/// the source keeps matching the file.
pub proof fn lemma_answer_keeps_agreement(
    before: HoleCopy,
    after: HoleCopy,
    ev: CopyEvent,
    file: Seq<u8>,
    holes: Seq<bool>,
)
    requires
        before.wf(),
        sparse_file(file, holes),
        agrees(before, file, holes),
        answers(file, holes, before.state(), ev),
    ensures
        accepts(before.state(), ev),
        advanced_by(before, after, ev) ==> agrees(after, file, holes),
{
    let s = before.state();
    if advanced_by(before, after, ev) {
        let t = after.state();
        if s.phase == Phase::Write {
            let k = s.pending.len();
            assert(file.take(s.offset as int) + s.pending =~= file.take(t.offset as int));
            assert forall|i: int| 0 <= i < t.offset implies #[trigger] (holes.take(s.offset as int)
                + fill(false, k))[i] == holes.take(t.offset as int)[i] by {
                if i >= s.offset {
                    assert(!holes[i]);
                }
            }
            assert(holes.take(s.offset as int) + fill(false, k) =~= holes.take(t.offset as int));
        } else if s.phase == Phase::SeekDest {
            let gap = (s.hole_end - s.offset) as nat;
            assert forall|i: int| 0 <= i < t.offset implies #[trigger] (file.take(s.offset as int)
                + fill(0u8, gap))[i] == file.take(t.offset as int)[i] by {
                if i >= s.offset {
                    assert(holes[i]);
                }
            }
            assert(file.take(s.offset as int) + fill(0u8, gap) =~= file.take(t.offset as int));
            assert forall|i: int| 0 <= i < t.offset implies #[trigger] (holes.take(s.offset as int)
                + fill(true, gap))[i] == holes.take(t.offset as int)[i] by {
                if i >= s.offset {
                    assert(holes[i]);
                }
            }
            assert(holes.take(s.offset as int) + fill(true, gap) =~= holes.take(t.offset as int));
        } else if s.phase == Phase::Read {
            if let CopyEvent::Data(b) = ev {
                if b@.len() > s.hole_start - s.offset {
                    assert(t.pending =~= file.subrange(s.offset as int, (s.offset + t.pending.len()) as int));
                }
            }
        }
    }
}

/// A complete copy that agrees with a sparse file has written that file
/// byte for byte, as long as it, and has written exactly where the file has
/// data: each hole of the file is a hole of the destination.
pub proof fn lemma_copy_reproduces_file(c: HoleCopy, file: Seq<u8>, holes: Seq<bool>)
    requires
        c.wf(),
        c.is_finished(),
        sparse_file(file, holes),
        agrees(c, file, holes),
    ensures
        c.dest_view() == file,
        forall|i: int| 0 <= i < file.len() ==> #[trigger] c.dest_written()[i] == !holes[i],
{
    assert(file.take(file.len() as int) =~= file);
    assert(holes.take(holes.len() as int) =~= holes);
    lemma_holes_preserved(c, 0, 0);
}

/// `copies` is a run of one copy: each entry is the one before it after the
/// accepted answer in `evs` at the same index.
pub open spec fn is_run(copies: Seq<HoleCopy>, evs: Seq<CopyEvent>) -> bool {
    &&& copies.len() == evs.len() + 1
    &&& forall|i: int| 0 <= i < evs.len() ==> #[trigger] advanced_by(copies[i], copies[i + 1], evs[i])
    &&& forall|i: int| 0 <= i < copies.len() ==> #[trigger] copies[i].wf()
}

/// Every copy of a run that starts afresh and is answered by a sparse file
/// agrees with that file, up to and including the copy at `k`.
proof fn lemma_run_agrees(
    copies: Seq<HoleCopy>,
    evs: Seq<CopyEvent>,
    file: Seq<u8>,
    holes: Seq<bool>,
    k: int,
)
    requires
        is_run(copies, evs),
        0 <= k < copies.len(),
        agrees(copies[0], file, holes),
        sparse_file(file, holes),
        forall|i: int| 0 <= i < evs.len() ==> #[trigger] answers(file, holes, copies[i].state(), evs[i]),
    ensures
        agrees(copies[k], file, holes),
    decreases k,
{
    if k > 0 {
        let j = k - 1;
        lemma_run_agrees(copies, evs, file, holes, j);
        assert(copies[j].wf());
        assert(advanced_by(copies[j], copies[j + 1], evs[j]));
        assert(answers(file, holes, copies[j].state(), evs[j]));
        lemma_answer_keeps_agreement(copies[j], copies[j + 1], evs[j], file, holes);
    }
}

/// A whole copy, from a fresh start to completion, on a source that answers
/// as a sparse file does: every answer is taken, and the destination ends
/// holding the file byte for byte, exactly as long, with a write exactly
/// where the file has data, so each hole of the file is a hole of the
/// destination.
pub proof fn lemma_whole_copy_reproduces_file(
    copies: Seq<HoleCopy>,
    evs: Seq<CopyEvent>,
    file: Seq<u8>,
    holes: Seq<bool>,
)
    requires
        is_run(copies, evs),
        copies[0].state().phase == Phase::Length,
        copies[0].state().offset == 0,
        copies[0].source_view() == Seq::<u8>::empty(),
        copies[0].source_holes() == Seq::<bool>::empty(),
        sparse_file(file, holes),
        forall|i: int| 0 <= i < evs.len() ==> #[trigger] answers(file, holes, copies[i].state(), evs[i]),
        copies.last().is_finished(),
    ensures
        forall|i: int| 0 <= i < evs.len() ==> #[trigger] accepts(copies[i].state(), evs[i]),
        copies.last().dest_view() == file,
        copies.last().dest_view().len() == file.len(),
        forall|i: int|
            0 <= i < file.len() ==> #[trigger] copies.last().dest_written()[i] == !holes[i],
{
    lemma_new_copy_agrees(copies[0], file, holes);
    assert forall|i: int| 0 <= i < evs.len() implies #[trigger] accepts(copies[i].state(), evs[i]) by {
        lemma_run_agrees(copies, evs, file, holes, i);
        assert(copies[i].wf());
        assert(answers(file, holes, copies[i].state(), evs[i]));
        lemma_answer_keeps_agreement(copies[i], copies[i + 1], evs[i], file, holes);
    }
    let last = copies.len() - 1;
    lemma_run_agrees(copies, evs, file, holes, last);
    assert(copies[last].wf());
    lemma_copy_reproduces_file(copies[last], file, holes);
}

/// Once a copy is complete, the destination holds the bytes of the source,
/// holes reading as zeros, and is exactly as long as the source.
pub proof fn lemma_copy_equivalence(c: HoleCopy)
    requires
        c.wf(),
        c.is_finished(),
    ensures
        c.dest_view() == c.source_view(),
        c.dest_view().len() == c.source_len(),
{
}

/// Once a copy is complete, a hole of the source of length `l` at offset
/// `off` is a hole of the destination at the same place: no write touched
/// it. More generally, the destination got a byte by a write exactly where
/// the source had data.
pub proof fn lemma_holes_preserved(c: HoleCopy, off: nat, l: nat)
    requires
        c.wf(),
        c.is_finished(),
        off + l <= c.source_len(),
        forall|i: int| off <= i < off + l ==> #[trigger] c.source_holes()[i],
    ensures
        forall|i: int| off <= i < off + l ==> !#[trigger] c.dest_written()[i],
        c.source_holes().len() == c.source_len(),
        c.dest_written().len() == c.source_len(),
        forall|i: int|
            0 <= i < c.source_len() ==> #[trigger] c.dest_written()[i] == !c.source_holes()[i],
{
    assert forall|i: int| off <= i < off + l implies !#[trigger] c.dest_written()[i] by {
        assert(c.source_holes()[i]);
    }
}

} // verus!
