use vstd::prelude::*;
use vstd::string::StrSliceExecFns;
use vstd::utf8::encode_utf8;
use crate::file_model::{read_len, write_at, MAX_OFFSET};
use crate::hex::{hex_dump, hex_dump_text};

verus! {

/// How the bytes of a read are shown.
pub enum PrintMode {
    Unicode,
    Hex,
}

/// One operation of a script run against a single open file.
pub enum SeekMode {
    /// Write the UTF-8 bytes of the text at the current offset.
    Write(String),
    /// Read up to this many bytes at the current offset and show them.
    Read(usize, PrintMode),
    /// Move the offset to this absolute position.
    Seek(i64),
}

/// The bytes that a `Write` operation puts in the file.
pub open spec fn payload(text: String) -> Seq<u8> {
    encode_utf8(text@)
}

/// A file's contents and offset after one operation, when every write is
/// whole.
pub open spec fn op_effect(content: Seq<u8>, off: nat, op: SeekMode) -> (Seq<u8>, nat) {
    match op {
        SeekMode::Write(text) => (write_at(content, off, payload(text)), off + payload(text).len()),
        SeekMode::Read(count, _) => (content, off + read_len(content, off, count as nat)),
        SeekMode::Seek(pos) => (content, pos as nat),
    }
}

/// The contents and offset after the first `n` operations of a script run
/// on a file that held `init` when it was opened.
pub open spec fn state_after(init: Seq<u8>, ops: Seq<SeekMode>, n: nat) -> (Seq<u8>, nat)
    decreases n,
{
    if n == 0 || n > ops.len() {
        (init, 0)
    } else {
        let prev = state_after(init, ops, (n - 1) as nat);
        op_effect(prev.0, prev.1, ops[n - 1])
    }
}

/// The contents of a file that held `init` when the whole script ran on it;
/// an absent file starts empty.
pub open spec fn script_file(init: Seq<u8>, ops: Seq<SeekMode>) -> Seq<u8> {
    state_after(init, ops, ops.len()).0
}

/// The system call that a script run needs next.
pub enum ScriptAction {
    /// Write these bytes at the current offset.
    Write(Vec<u8>),
    /// Read up to this many bytes at the current offset.
    Read(usize),
    /// Move the offset to this absolute position.
    Seek(i64),
    /// Every operation is done: close the file.
    Close,
}

/// What the system call of the current operation returned.
pub enum ScriptEvent {
    /// The write wrote this many bytes.
    Wrote(usize),
    /// The read returned these bytes; none at the end of the file.
    ReadBytes(Vec<u8>),
    /// The seek left the offset here.
    Sought(i64),
}

/// What a finished operation reports.
pub enum ScriptReport {
    Wrote(usize),
    Sought(i64),
    Eof,
    /// Bytes read in text mode, to be shown as UTF-8 text; a driver shows
    /// invalid sequences as replacement characters.
    Text(Vec<u8>),
    /// Bytes read in hex mode, already rendered. Only the bytes that the
    /// read returned are shown, not the unfilled rest of the buffer.
    Hex(String),
}

/// Why an event was refused.
#[derive(PartialEq, Eq, Structural, Clone, Copy, Debug)]
pub enum ScriptError {
    /// All operations are done.
    Finished,
    /// The event does not answer the current operation.
    UnexpectedEvent,
}

/// A script on its way through a file.
pub struct ScriptRun {
    ops: Vec<SeekMode>,
    next: usize,
    offset: u64,
    file: Ghost<spec_fn(Seq<u8>) -> Seq<u8>>,
    follows: Ghost<spec_fn(Seq<u8>) -> bool>,
}

impl ScriptRun {
    /// The operations of the script.
    pub closed spec fn ops(self) -> Seq<SeekMode> {
        self.ops@
    }

    /// How many operations are done.
    pub closed spec fn done(self) -> nat {
        self.next as nat
    }

    /// The file offset after the operations done.
    pub closed spec fn pos(self) -> nat {
        self.offset as nat
    }

    /// The file's contents after the operations done, for a file that held
    /// `init` when it was opened: each write applied where it went, with as
    /// many bytes as it wrote.
    pub closed spec fn file_from(self, init: Seq<u8>) -> Seq<u8> {
        (self.file@)(init)
    }

    /// On a file that held `init` when it was opened, every write so far was
    /// whole and every read returned as many bytes as the file held at the
    /// offset.
    pub closed spec fn follows_script_from(self, init: Seq<u8>) -> bool {
        (self.follows@)(init)
    }

    /// The run's invariant: for every initial content with which it follows
    /// its script, its file and offset are those that the script gives after
    /// the operations done.
    pub closed spec fn wf(self) -> bool {
        &&& self.next <= self.ops@.len()
        &&& self.offset <= MAX_OFFSET
        &&& forall|init: Seq<u8>|
            (self.follows@)(init) ==> #[trigger] state_after(init, self.ops@, self.next as nat) == (
                (self.file@)(init),
                self.offset as nat,
            )
    }

    /// Every operation is done.
    pub open spec fn finished(self) -> bool {
        self.done() == self.ops().len()
    }

    /// Whether `ev` is a possible answer to the current operation.
    pub open spec fn accepts(self, ev: ScriptEvent) -> bool {
        &&& !self.finished()
        &&& match (self.ops()[self.done() as int], ev) {
            (SeekMode::Write(text), ScriptEvent::Wrote(n)) => n <= payload(text).len()
                && self.pos() + n <= MAX_OFFSET,
            (SeekMode::Read(count, _), ScriptEvent::ReadBytes(bytes)) => bytes@.len() <= count
                && self.pos() + bytes@.len() <= MAX_OFFSET,
            (SeekMode::Seek(target), ScriptEvent::Sought(at)) => at == target && target >= 0,
            _ => false,
        }
    }

    /// `next` is this run after the current operation got the answer `ev`,
    /// and `rep` is what that operation reports.
    pub open spec fn stepped(self, next: Self, ev: ScriptEvent, rep: ScriptReport) -> bool {
        &&& next.ops() == self.ops()
        &&& next.done() == self.done() + 1
        &&& match (self.ops()[self.done() as int], ev) {
            (SeekMode::Write(text), ScriptEvent::Wrote(n)) => {
                &&& forall|init: Seq<u8>|
                    #[trigger] next.file_from(init) == write_at(
                        self.file_from(init),
                        self.pos(),
                        payload(text).take(n as int),
                    )
                &&& next.pos() == self.pos() + n
                &&& forall|init: Seq<u8>|
                    #[trigger] next.follows_script_from(init) == (self.follows_script_from(init)
                        && n == payload(text).len())
                &&& rep == ScriptReport::Wrote(n)
            },
            (SeekMode::Read(count, mode), ScriptEvent::ReadBytes(bytes)) => {
                &&& forall|init: Seq<u8>| #[trigger] next.file_from(init) == self.file_from(init)
                &&& next.pos() == self.pos() + bytes@.len()
                &&& forall|init: Seq<u8>|
                    #[trigger] next.follows_script_from(init) == (self.follows_script_from(init)
                        && bytes@.len() == read_len(self.file_from(init), self.pos(), count as nat))
                &&& if bytes@.len() == 0 {
                    rep is Eof
                } else {
                    match mode {
                        PrintMode::Unicode => rep is Text && rep->Text_0@ == bytes@,
                        PrintMode::Hex => rep is Hex && rep->Hex_0@ == hex_dump_text(bytes@),
                    }
                }
            },
            (SeekMode::Seek(target), ScriptEvent::Sought(_)) => {
                &&& forall|init: Seq<u8>| #[trigger] next.file_from(init) == self.file_from(init)
                &&& next.pos() == target as nat
                &&& forall|init: Seq<u8>|
                    #[trigger] next.follows_script_from(init) == self.follows_script_from(init)
                &&& rep == ScriptReport::Sought(target)
            },
            _ => false,
        }
    }

    /// `after` keeps the invariant when, for each initial content with which
    /// it follows the script, it is `self` with the current operation applied.
    proof fn lemma_next_state(self, after: Self)
        requires
            self.wf(),
            !self.finished(),
            after.ops@ == self.ops@,
            after.next == self.next + 1,
            after.offset <= MAX_OFFSET,
            forall|init: Seq<u8>|
                #[trigger] (after.follows@)(init) ==> (self.follows@)(init) && op_effect(
                    (self.file@)(init),
                    self.offset as nat,
                    self.ops@[self.next as int],
                ) == ((after.file@)(init), after.offset as nat),
        ensures
            after.wf(),
    {
        assert forall|init: Seq<u8>| (after.follows@)(init) implies #[trigger] state_after(
            init,
            after.ops@,
            after.next as nat,
        ) == ((after.file@)(init), after.offset as nat) by {
            assert(state_after(init, self.ops@, self.next as nat) == ((self.file@)(init), self.offset as nat));
        }
    }

    /// Starts a run of `ops` at offset zero.
    pub fn new(ops: Vec<SeekMode>) -> (r: Self)
        ensures
            r.wf(),
            r.ops() == ops@,
            r.done() == 0,
            r.pos() == 0,
            forall|init: Seq<u8>| #[trigger] r.file_from(init) == init,
            forall|init: Seq<u8>| #[trigger] r.follows_script_from(init),
    {
        ScriptRun {
            ops,
            next: 0,
            offset: 0,
            file: Ghost(|init: Seq<u8>| init),
            follows: Ghost(|init: Seq<u8>| true),
        }
    }

    /// The system call that the current operation needs.
    pub fn action(&self) -> (r: ScriptAction)
        requires
            self.wf(),
        ensures
            self.finished() ==> r is Close,
            !self.finished() ==> match self.ops()[self.done() as int] {
                SeekMode::Write(text) => r is Write && r->Write_0@ == payload(text),
                SeekMode::Read(count, _) => r == ScriptAction::Read(count),
                SeekMode::Seek(target) => r == ScriptAction::Seek(target),
            },
    {
        if self.next >= self.ops.len() {
            return ScriptAction::Close;
        }
        match &self.ops[self.next] {
            SeekMode::Write(text) => ScriptAction::Write(text.as_str().as_bytes_vec()),
            SeekMode::Read(count, _) => ScriptAction::Read(*count),
            SeekMode::Seek(target) => ScriptAction::Seek(*target),
        }
    }

    /// Takes the answer to the current operation, moves on to the next one and
    /// returns what the finished one reports. An answer that the current
    /// operation cannot have leaves the run as it was.
    pub fn complete(&mut self, ev: ScriptEvent) -> (r: Result<ScriptReport, ScriptError>)
        requires
            old(self).wf(),
        ensures
            final(self).wf(),
            r is Ok <==> old(self).accepts(ev),
            r matches Ok(rep) ==> old(self).stepped(*final(self), ev, rep),
            r matches Err(e) ==> *final(self) == *old(self) && e == (if old(self).finished() {
                ScriptError::Finished
            } else {
                ScriptError::UnexpectedEvent
            }),
    {
        if self.next >= self.ops.len() {
            return Err(ScriptError::Finished);
        }
        let idx = self.next;
        let ghost before = *self;
        match (&self.ops[idx], ev) {
            (SeekMode::Write(text), ScriptEvent::Wrote(n)) => {
                let len = text.as_str().as_bytes().len();
                assert(len == payload(*text).len());
                if n > len || n as u64 > MAX_OFFSET - self.offset {
                    return Err(ScriptError::UnexpectedEvent);
                }
                let ghost data = payload(*text);
                proof {
                    let off = self.offset as nat;
                    self.file@ = |init: Seq<u8>| write_at((before.file@)(init), off, data.take(n as int));
                    self.follows@ = |init: Seq<u8>| (before.follows@)(init) && n == data.len();
                }
                self.offset = self.offset + n as u64;
                self.next = idx + 1;
                proof {
                    assert(data.take(data.len() as int) =~= data);
                    before.lemma_next_state(*self);
                }
                Ok(ScriptReport::Wrote(n))
            },
            (SeekMode::Read(count, mode), ScriptEvent::ReadBytes(bytes)) => {
                if bytes.len() > *count || bytes.len() as u64 > MAX_OFFSET - self.offset {
                    return Err(ScriptError::UnexpectedEvent);
                }
                proof {
                    let off = self.offset as nat;
                    let got = bytes@.len();
                    let c = *count as nat;
                    self.follows@ = |init: Seq<u8>|
                        (before.follows@)(init) && got == read_len((before.file@)(init), off, c);
                }
                self.offset = self.offset + bytes.len() as u64;
                self.next = idx + 1;
                proof {
                    before.lemma_next_state(*self);
                }
                if bytes.len() == 0 {
                    Ok(ScriptReport::Eof)
                } else {
                    match mode {
                        PrintMode::Unicode => Ok(ScriptReport::Text(bytes)),
                        PrintMode::Hex => Ok(ScriptReport::Hex(hex_dump(bytes.as_slice()))),
                    }
                }
            },
            (SeekMode::Seek(target), ScriptEvent::Sought(at)) => {
                if at != *target || *target < 0 {
                    return Err(ScriptError::UnexpectedEvent);
                }
                let target = *target;
                self.offset = target as u64;
                self.next = idx + 1;
                proof {
                    before.lemma_next_state(*self);
                }
                Ok(ScriptReport::Sought(target))
            },
            _ => Err(ScriptError::UnexpectedEvent),
        }
    }
}

/// On a file that held `init` when it was opened, a run that follows its
/// script has left the file that the operations done make of `init`, at the
/// offset they leave. Where an operation fails, the run stops there, so the
/// file is what the operations before it made.
pub proof fn lemma_run_so_far(run: ScriptRun, init: Seq<u8>)
    requires
        run.wf(),
        run.follows_script_from(init),
    ensures
        (run.file_from(init), run.pos()) == state_after(init, run.ops(), run.done()),
{
}

/// A run that did every operation of its script on a file that held `init`,
/// each write whole and each read as long as the file allowed, leaves the
/// file that the script makes out of `init`.
pub proof fn lemma_finished_run_is_script_file(run: ScriptRun, init: Seq<u8>)
    requires
        run.wf(),
        run.finished(),
        run.follows_script_from(init),
    ensures
        run.file_from(init) == script_file(init, run.ops()),
{
}

/// `ev` is what a file holding `content` answers to `op` at offset `pos`,
/// when every write is whole.
pub open spec fn answers(content: Seq<u8>, pos: nat, op: SeekMode, ev: ScriptEvent) -> bool {
    match (op, ev) {
        (SeekMode::Write(text), ScriptEvent::Wrote(n)) => n == payload(text).len(),
        (SeekMode::Read(count, _), ScriptEvent::ReadBytes(bytes)) => {
            &&& bytes@.len() == read_len(content, pos, count as nat)
            &&& forall|i: int| 0 <= i < bytes@.len() ==> #[trigger] bytes@[i] == content[pos + i]
        },
        (SeekMode::Seek(target), ScriptEvent::Sought(at)) => at == target && target >= 0,
        _ => false,
    }
}

/// A run that follows its script on a file that held `init` takes each
/// answer that the file, as the run has left it, gives, as long as the
/// offset stays representable, and still follows its script afterwards.
pub proof fn lemma_answer_keeps_script(
    before: ScriptRun,
    after: ScriptRun,
    ev: ScriptEvent,
    rep: ScriptReport,
    init: Seq<u8>,
)
    requires
        before.wf(),
        !before.finished(),
        before.follows_script_from(init),
        answers(before.file_from(init), before.pos(), before.ops()[before.done() as int], ev),
        op_effect(before.file_from(init), before.pos(), before.ops()[before.done() as int]).1
            <= MAX_OFFSET,
    ensures
        before.accepts(ev),
        before.stepped(after, ev, rep) ==> after.follows_script_from(init),
{
}

/// Two runs of one script on files that held the same bytes when they were
/// opened (for instance two absent files, which start empty) leave
/// byte-identical files.
pub proof fn lemma_script_deterministic(a: ScriptRun, b: ScriptRun, init: Seq<u8>)
    requires
        a.wf(),
        b.wf(),
        a.ops() == b.ops(),
        a.finished(),
        b.finished(),
        a.follows_script_from(init),
        b.follows_script_from(init),
    ensures
        a.file_from(init) == b.file_from(init),
{
    lemma_finished_run_is_script_file(a, init);
    lemma_finished_run_is_script_file(b, init);
}

/// `runs` is one run of a script: each entry is the one before it after the
/// accepted answer in `evs` at the same index, which reported what `reps`
/// holds there.
pub open spec fn is_script_run(
    runs: Seq<ScriptRun>,
    evs: Seq<ScriptEvent>,
    reps: Seq<ScriptReport>,
) -> bool {
    &&& runs.len() == evs.len() + 1
    &&& reps.len() == evs.len()
    &&& forall|i: int| 0 <= i < evs.len() ==> #[trigger] runs[i].stepped(runs[i + 1], evs[i], reps[i])
}

/// A run that starts afresh: nothing done, at offset zero, the file as it
/// was opened.
pub open spec fn fresh(run: ScriptRun) -> bool {
    &&& run.done() == 0
    &&& run.pos() == 0
    &&& forall|init: Seq<u8>| #[trigger] run.file_from(init) == init
}

/// Two fresh runs of one script that got the same answers are alike at each
/// step: same operations done, same offset, same file for every content that
/// the file held when it was opened.
proof fn lemma_same_answers_alike(
    a: Seq<ScriptRun>,
    b: Seq<ScriptRun>,
    evs: Seq<ScriptEvent>,
    ra: Seq<ScriptReport>,
    rb: Seq<ScriptReport>,
    k: int,
)
    requires
        is_script_run(a, evs, ra),
        is_script_run(b, evs, rb),
        fresh(a[0]),
        fresh(b[0]),
        a[0].ops() == b[0].ops(),
        0 <= k < a.len(),
    ensures
        a[k].ops() == a[0].ops(),
        b[k].ops() == a[0].ops(),
        a[k].done() == b[k].done(),
        a[k].pos() == b[k].pos(),
        forall|init: Seq<u8>| #[trigger] a[k].file_from(init) == b[k].file_from(init),
    decreases k,
{
    if k > 0 {
        let j = k - 1;
        lemma_same_answers_alike(a, b, evs, ra, rb, j);
        assert(a[j].stepped(a[j + 1], evs[j], ra[j]));
        assert(b[j].stepped(b[j + 1], evs[j], rb[j]));
        assert forall|init: Seq<u8>| #[trigger] a[k].file_from(init) == b[k].file_from(init) by {
            assert(a[j].file_from(init) == b[j].file_from(init));
        }
    }
}

/// Two runs of one script that start afresh on files holding the same bytes
/// (for instance two absent files, which start empty) and get the same
/// answers, short writes included, leave byte-identical files.
pub proof fn lemma_same_answers_same_file(
    a: Seq<ScriptRun>,
    b: Seq<ScriptRun>,
    evs: Seq<ScriptEvent>,
    ra: Seq<ScriptReport>,
    rb: Seq<ScriptReport>,
    init: Seq<u8>,
)
    requires
        is_script_run(a, evs, ra),
        is_script_run(b, evs, rb),
        fresh(a[0]),
        fresh(b[0]),
        a[0].ops() == b[0].ops(),
    ensures
        a.last().file_from(init) == b.last().file_from(init),
        a.last().pos() == b.last().pos(),
{
    lemma_same_answers_alike(a, b, evs, ra, rb, a.len() - 1);
}

/// The script that seeks to `target` and writes `text` there.
pub open spec fn seek_then_write(target: i64, text: String) -> Seq<SeekMode> {
    seq![SeekMode::Seek(target), SeekMode::Write(text)]
}

/// Seeking at or past the end of a file and writing there leaves a file
/// that keeps its old bytes, ends right after the written bytes, and reads
/// as zeros between its old end and them.
pub proof fn lemma_seek_past_end_makes_hole(init: Seq<u8>, target: i64, text: String)
    requires
        target >= init.len(),
    ensures
        script_file(init, seek_then_write(target, text)).len() == target + payload(text).len(),
        forall|i: int|
            0 <= i < init.len() ==> #[trigger] script_file(init, seek_then_write(target, text))[i]
                == init[i],
        forall|i: int|
            init.len() <= i < target ==> #[trigger] script_file(
                init,
                seek_then_write(target, text),
            )[i] == 0u8,
        script_file(init, seek_then_write(target, text)).subrange(
            target as int,
            target + payload(text).len(),
        ) == payload(text),
{
    let ops = seek_then_write(target, text);
    assert(ops.len() == 2);
    assert(ops[0] == SeekMode::Seek(target));
    assert(state_after(init, ops, 0) == (init, 0nat));
    assert(state_after(init, ops, 1) == op_effect(init, 0, ops[0]));
    assert(state_after(init, ops, 1) == (init, target as nat));
    assert(state_after(init, ops, 2) == op_effect(init, target as nat, ops[1]));
    crate::file_model::lemma_write_past_end_leaves_zeros(init, target as nat, payload(text));
}

} // verus!
