//! Properties of whole runs of operations on one `APPEND`, starting from a
//! new state.

use vstd::prelude::*;

use crate::append::{
    chunk_check, continuation_step, crlf, finish_sending_step, finish_step, push_step,
    set_chunk_step, split_prefix, AppendView, PhaseView, StreamedAppend,
};
use crate::event::{ClientSendEvent, CommandHandle, FinishSendingResult};
use crate::fragment::{FragmentView, LiteralMode};
use crate::laws::{fragments_data, lemma_split_keeps_data, opt_data};

verus! {

/// One operation on an `APPEND` state.
pub enum Op {
    /// `continuation`
    Continuation,
    /// `set_chunk` with these bytes
    SetChunk(Seq<u8>),
    /// `finish`
    Finish,
    /// `push_to_buffer`
    Push,
    /// `finish_sending`
    FinishSending,
}

/// What a run reports besides its output.
pub enum Note {
    /// A continuation that the `APPEND` was waiting for.
    Resumed,
    /// An event reported by `finish_sending`.
    Event(ClientSendEvent),
}

/// The record of a run of operations.
pub struct Run {
    /// The state reached.
    pub state: AppendView,
    /// All bytes handed out by `push_to_buffer`, in order.
    pub out: Seq<u8>,
    /// The chunks accepted by `set_chunk`, in order.
    pub accepted: Seq<Seq<u8>>,
    /// The accepted continuations and the events, in order.
    pub log: Seq<Note>,
    /// Whether `finish_sending` completed the command; the state is then
    /// gone and later operations do nothing.
    pub completed: bool,
}

/// Applies one operation to a run.
pub open spec fn apply(r: Run, op: Op) -> Run {
    if r.completed {
        r
    } else {
        let s = r.state;
        match op {
            Op::Continuation => {
                let (next, resumed) = continuation_step(s);
                Run { state: next, log: if resumed { r.log.push(Note::Resumed) } else { r.log }, ..r }
            },
            Op::SetChunk(bytes) => Run {
                state: set_chunk_step(s, bytes),
                accepted: if chunk_check(s, bytes) is Ok { r.accepted.push(bytes) } else { r.accepted },
                ..r
            },
            Op::Finish => Run { state: finish_step(s), ..r },
            Op::Push => {
                let (next, bytes) = push_step(s);
                Run { state: next, out: r.out + bytes, ..r }
            },
            Op::FinishSending => match finish_sending_step(s) {
                FinishSendingResult::Uncompleted { state, event } => Run {
                    state,
                    log: match event {
                        Some(e) => r.log.push(Note::Event(e)),
                        None => r.log,
                    },
                    ..r
                },
                FinishSendingResult::Completed { event } => Run {
                    log: r.log.push(Note::Event(event)),
                    completed: true,
                    ..r
                },
            },
        }
    }
}

/// Applies the operations one after the other to `s`.
pub open spec fn run(s: AppendView, ops: Seq<Op>) -> Run
    decreases ops.len(),
{
    if ops.len() == 0 {
        Run { state: s, out: Seq::empty(), accepted: Seq::empty(), log: Seq::empty(), completed: false }
    } else {
        apply(run(s, ops.drop_last()), ops.last())
    }
}

/// The bytes of all chunks, one after the other.
pub open spec fn flatten(chunks: Seq<Seq<u8>>) -> Seq<u8>
    decreases chunks.len(),
{
    if chunks.len() == 0 {
        Seq::empty()
    } else {
        flatten(chunks.drop_last()) + chunks.last()
    }
}

/// The counts of body bytes that the `AppendChunkSent` events report, in order.
pub open spec fn chunk_reports(log: Seq<Note>) -> Seq<u64>
    decreases log.len(),
{
    if log.len() == 0 {
        Seq::empty()
    } else {
        match log.last() {
            Note::Event(ClientSendEvent::AppendChunkSent { written, .. }) => chunk_reports(
                log.drop_last(),
            ).push(written),
            _ => chunk_reports(log.drop_last()),
        }
    }
}

/// The prefix data that a phase holds back.
pub open spec fn held(phase: PhaseView) -> Seq<u8> {
    match phase {
        PhaseView::Prefix(o) => opt_data(o),
        PhaseView::PrefixWritten(o) => opt_data(o),
        PhaseView::MetadataContinuation(data) => data,
        _ => Seq::empty(),
    }
}

/// Whether the prefix was sent and the body literal was accepted.
pub open spec fn in_body(phase: PhaseView) -> bool {
    !(phase is Prefix) && !(phase is PrefixWritten) && !(phase is MetadataContinuation)
        && !(phase is HeaderContinuation)
}

/// Whether the body was reported ready.
pub open spec fn ready_reported(phase: PhaseView) -> bool {
    in_body(phase) && phase != PhaseView::Ready(false)
}

/// Whether the last accepted chunk was not handed out yet.
pub open spec fn unsent(phase: PhaseView) -> nat {
    if phase is Chunk {
        1
    } else {
        0
    }
}

/// Whether the last accepted chunk was not reported yet.
pub open spec fn unreported(phase: PhaseView) -> nat {
    if phase is Chunk || phase is ChunkWritten {
        1
    } else {
        0
    }
}

/// Whether a note is an event of the body being sent.
pub open spec fn is_body_event(n: Note, h: CommandHandle) -> bool {
    n matches Note::Event(ClientSendEvent::AppendChunkSent { handle, .. }) && handle == h
}

/// Whether the log holds only accepted continuations.
pub open spec fn only_resumes(log: Seq<Note>) -> bool {
    forall|i: int| 0 <= i < log.len() ==> #[trigger] log[i] is Resumed
}

/// Whether the log reports readiness at `k`: before it come only accepted
/// continuations, after it only reports of chunks, and at most, as the very
/// last note, the completion.
pub open spec fn ready_at(log: Seq<Note>, h: CommandHandle, k: int) -> bool {
    &&& 0 <= k < log.len()
    &&& log[k] == Note::Event(ClientSendEvent::AppendReady { handle: h })
    &&& forall|i: int| 0 <= i < k ==> #[trigger] log[i] is Resumed
    &&& forall|i: int|
        k < i < log.len() ==> is_body_event(#[trigger] log[i], h) || (i == log.len() - 1
            && log[i] == Note::Event(ClientSendEvent::AppendSent { handle: h }))
}

/// Whether nothing can leave before a continuation: the body literal or a
/// literal of the prefix is synchronizing.
pub open spec fn waits_for_continuation(spec: StreamedAppend, prefix: Seq<FragmentView>) -> bool {
    spec.mode == LiteralMode::Sync || split_prefix(prefix).1 is Some
}

/// Whether the log holds no accepted continuation.
pub open spec fn no_resume(log: Seq<Note>) -> bool {
    forall|i: int| 0 <= i < log.len() ==> !(#[trigger] log[i] is Resumed)
}

/// Where a run without continuations can stand.
pub open spec fn stuck(r: Run, prefix: Seq<FragmentView>) -> bool {
    let s = r.state;
    let sp = split_prefix(prefix);
    ||| s.phase == PhaseView::Prefix(None) && s.prefix == prefix && r.out == Seq::<u8>::empty()
    ||| r.out == sp.0 && s.prefix == sp.2 && match s.phase {
        PhaseView::PrefixWritten(pending) => pending == sp.1,
        PhaseView::MetadataContinuation(data) => sp.1 == Some(data),
        PhaseView::HeaderContinuation => sp.1 is None,
        _ => false,
    }
}

/// What holds of every run from a new state with this handle, these
/// parameters and this encoded prefix.
pub open spec fn consistent(r: Run, h: CommandHandle, spec: StreamedAppend, prefix: Seq<FragmentView>) -> bool {
    let s = r.state;
    let n = r.accepted.len();
    let m = n - unreported(s.phase);
    &&& s.wf()
    &&& s.handle == h
    &&& s.spec == spec
    &&& r.completed ==> s.phase == PhaseView::Finished
    // what went out
    &&& if in_body(s.phase) {
        &&& s.prefix == Seq::<FragmentView>::empty()
        &&& r.out == fragments_data(prefix) + flatten(r.accepted.take(n - unsent(s.phase))) + (
        if s.phase is Finished {
            crlf()
        } else {
            Seq::empty()
        })
    } else {
        &&& r.out + held(s.phase) + fragments_data(s.prefix) == fragments_data(prefix)
        &&& n == 0
        &&& (s.phase == PhaseView::PrefixWritten(None) || s.phase is HeaderContinuation) ==> s.prefix
            == Seq::<FragmentView>::empty()
    }
    // what was counted and reported
    &&& n >= unreported(s.phase)
    &&& (s.phase matches PhaseView::Chunk(bytes) ==> r.accepted.last() == bytes)
    &&& (s.phase matches PhaseView::ChunkWritten(count) ==> r.accepted.last().len() == count)
    &&& s.written == flatten(r.accepted.take(m)).len()
    &&& chunk_reports(r.log).len() == m
    &&& forall|i: int| 0 <= i < m ==> #[trigger] chunk_reports(r.log)[i] == flatten(
        r.accepted.take(i + 1),
    ).len()
    // the order of the notes
    &&& !ready_reported(s.phase) ==> only_resumes(r.log)
    &&& ready_reported(s.phase) ==> exists|k: int| ready_at(r.log, h, k)
    &&& !r.completed ==> forall|i: int| 0 <= i < r.log.len() ==> #[trigger] r.log[i] != Note::Event(
        ClientSendEvent::AppendSent { handle: h },
    )
    &&& r.completed ==> r.log.len() > 0 && r.log.last() == Note::Event(
        ClientSendEvent::AppendSent { handle: h },
    )
    // without continuations
    &&& (waits_for_continuation(spec, prefix) && no_resume(r.log)) ==> stuck(r, prefix)
}

/// Taking a whole sequence, or all but a pushed element, gives it back.
proof fn lemma_take_push<A>(items: Seq<A>, item: A)
    ensures
        items.push(item).take(items.len() as int) == items,
        items.push(item).take(items.len() + 1int) == items.push(item),
        items.take(items.len() as int) == items,
        forall|i: int| 0 <= i < items.len() ==> #[trigger] items.push(item).take(i + 1) == items.take(i + 1),
{
    assert(items.push(item).take(items.len() as int) =~= items);
    assert(items.push(item).take(items.len() + 1int) =~= items.push(item));
    assert(items.take(items.len() as int) =~= items);
    assert forall|i: int| 0 <= i < items.len() implies #[trigger] items.push(item).take(i + 1)
        == items.take(i + 1) by {
        assert(items.push(item).take(i + 1) =~= items.take(i + 1));
    }
}

/// Appending a note extends the reports only by a report of a chunk.
proof fn lemma_reports_push(log: Seq<Note>, note: Note)
    ensures
        chunk_reports(log.push(note)) == match note {
            Note::Event(ClientSendEvent::AppendChunkSent { written, .. }) => chunk_reports(log).push(written),
            _ => chunk_reports(log),
        },
{
    assert(log.push(note).drop_last() =~= log);
}

/// A log without accepted continuations stays so without its last note.
proof fn lemma_no_resume_push(log: Seq<Note>, note: Note)
    ensures
        no_resume(log.push(note)) ==> no_resume(log),
{
    if no_resume(log.push(note)) {
        assert forall|i: int| 0 <= i < log.len() implies !(#[trigger] log[i] is Resumed) by {
            assert(log.push(note)[i] == log[i]);
        }
    }
}

/// Flattening a sequence with one more chunk appends that chunk.
proof fn lemma_flatten_push(chunks: Seq<Seq<u8>>, chunk: Seq<u8>)
    ensures
        flatten(chunks.push(chunk)) == flatten(chunks) + chunk,
{
    assert(chunks.push(chunk).drop_last() =~= chunks);
}

/// An accepted or refused continuation keeps a run consistent.
proof fn lemma_continuation_consistent(r: Run, h: CommandHandle, spec: StreamedAppend, prefix: Seq<FragmentView>)
    requires
        consistent(r, h, spec, prefix),
        !r.completed,
    ensures
        consistent(apply(r, Op::Continuation), h, spec, prefix),
{
    let s = r.state;
    let r2 = apply(r, Op::Continuation);
    lemma_reports_push(r.log, Note::Resumed);
    if continuation_step(s).1 {
        assert(!ready_reported(s.phase));
        assert(!ready_reported(r2.state.phase));
        assert forall|i: int| 0 <= i < r2.log.len() implies #[trigger] r2.log[i] is Resumed by {
            if i < r.log.len() {
                assert(r2.log[i] == r.log[i]);
            }
        }
        assert(only_resumes(r2.log));
        assert forall|i: int| 0 <= i < r2.log.len() implies #[trigger] r2.log[i] != Note::Event(
            ClientSendEvent::AppendSent { handle: h },
        ) by {
            assert(r2.log[i] is Resumed);
        }
        assert(r2.log[r.log.len() as int] is Resumed);
        assert(!no_resume(r2.log));
    } else {
        assert(r2 == r);
    }
}

/// Offering a chunk keeps a run consistent.
proof fn lemma_set_chunk_consistent(
    r: Run,
    bytes: Seq<u8>,
    h: CommandHandle,
    spec: StreamedAppend,
    prefix: Seq<FragmentView>,
)
    requires
        consistent(r, h, spec, prefix),
        !r.completed,
    ensures
        consistent(apply(r, Op::SetChunk(bytes)), h, spec, prefix),
{
    let s = r.state;
    let n = r.accepted.len();
    let r2 = apply(r, Op::SetChunk(bytes));
    if chunk_check(s, bytes) is Ok {
        lemma_take_push(r.accepted, bytes);
        assert(r2.accepted.take(n + 1 - unsent(r2.state.phase)) == r.accepted);
        assert(r2.accepted.take(n + 1 - unreported(r2.state.phase)) == r.accepted.take(n as int));
    } else {
        assert(r2 == r);
    }
}

/// Asking to finish keeps a run consistent.
proof fn lemma_finish_consistent(r: Run, h: CommandHandle, spec: StreamedAppend, prefix: Seq<FragmentView>)
    requires
        consistent(r, h, spec, prefix),
        !r.completed,
    ensures
        consistent(apply(r, Op::Finish), h, spec, prefix),
{
}

/// Handing out what is due keeps a run consistent.
proof fn lemma_push_consistent(r: Run, h: CommandHandle, spec: StreamedAppend, prefix: Seq<FragmentView>)
    requires
        consistent(r, h, spec, prefix),
        !r.completed,
    ensures
        consistent(apply(r, Op::Push), h, spec, prefix),
{
    let s = r.state;
    let n = r.accepted.len();
    let r2 = apply(r, Op::Push);
    match s.phase {
        PhaseView::Prefix(accepted) => {
            lemma_split_keeps_data(s.prefix);
            let sp = split_prefix(s.prefix);
            assert(r2.out == r.out + (opt_data(accepted) + sp.0));
            assert(r2.out + held(r2.state.phase) + fragments_data(r2.state.prefix) =~= r.out
                + held(s.phase) + fragments_data(s.prefix));
            if waits_for_continuation(spec, prefix) && no_resume(r.log) {
                assert(r.out + (opt_data(accepted) + sp.0) =~= sp.0);
            }
        },
        PhaseView::Chunk(bytes) => {
            lemma_take_push(r.accepted.drop_last(), bytes);
            assert(r.accepted.drop_last().push(bytes) =~= r.accepted);
            assert(r.accepted.take(n - 1) =~= r.accepted.drop_last());
            lemma_flatten_push(r.accepted.drop_last(), bytes);
            assert(r2.out =~= fragments_data(prefix) + flatten(r.accepted.take(n as int)) + Seq::<
                u8,
            >::empty());
        },
        PhaseView::Finish => {
            assert(r2.out =~= r.out + crlf());
            assert(r.out =~= fragments_data(prefix) + flatten(r.accepted.take(n as int)) + Seq::<
                u8,
            >::empty());
        },
        _ => {
            assert(r2.out =~= r.out);
            assert(r2 == r);
        },
    }
}

/// Taking note of written output keeps a run consistent.
proof fn lemma_finish_sending_consistent(
    r: Run,
    h: CommandHandle,
    spec: StreamedAppend,
    prefix: Seq<FragmentView>,
)
    requires
        consistent(r, h, spec, prefix),
        !r.completed,
    ensures
        consistent(apply(r, Op::FinishSending), h, spec, prefix),
{
    let s = r.state;
    let n = r.accepted.len();
    let r2 = apply(r, Op::FinishSending);
    match s.phase {
        PhaseView::PrefixWritten(Some(data)) => {
            assert(r2.log == r.log && r2.out == r.out);
            assert(r2.state == s.with_phase(PhaseView::MetadataContinuation(data)));
            if waits_for_continuation(spec, prefix) && no_resume(r.log) {
                assert(stuck(r, prefix));
                assert(split_prefix(prefix).1 == Some(data));
                assert(stuck(r2, prefix));
            }
        },
        PhaseView::PrefixWritten(None) => {
            if s.spec.mode != LiteralMode::Sync {
                let e = Note::Event(ClientSendEvent::AppendReady { handle: h });
                lemma_reports_push(r.log, e);
            lemma_no_resume_push(r.log, e);
                assert(ready_at(r2.log, h, r.log.len() as int));
                assert(r.accepted.take(0) =~= Seq::<Seq<u8>>::empty());
                assert(r.out =~= fragments_data(prefix) + flatten(r.accepted.take(0))
                    + Seq::<u8>::empty());
            } else {
                assert(r2.log == r.log && r2.out == r.out);
                assert(r2.state == s.with_phase(PhaseView::HeaderContinuation));
                if waits_for_continuation(spec, prefix) && no_resume(r.log) {
                    assert(stuck(r, prefix));
                    assert(stuck(r2, prefix));
                }
            }
        },
        PhaseView::Ready(false) => {
            let e = Note::Event(ClientSendEvent::AppendReady { handle: h });
            lemma_reports_push(r.log, e);
            lemma_no_resume_push(r.log, e);
            assert(ready_at(r2.log, h, r.log.len() as int));
        },
        PhaseView::ChunkWritten(count) => {
            let w = (s.written + count) as u64;
            let e = Note::Event(ClientSendEvent::AppendChunkSent { handle: h, written: w });
            lemma_reports_push(r.log, e);
            lemma_no_resume_push(r.log, e);
            lemma_take_push(r.accepted.drop_last(), r.accepted.last());
            assert(r.accepted.drop_last().push(r.accepted.last()) =~= r.accepted);
            assert(r.accepted.take(n - 1) =~= r.accepted.drop_last());
            lemma_flatten_push(r.accepted.drop_last(), r.accepted.last());
            assert(r.accepted.take(n as int) =~= r.accepted);
            let k = choose|k: int| ready_at(r.log, h, k);
            assert(ready_at(r2.log, h, k));
        },
        PhaseView::Finished => {
            let e = Note::Event(ClientSendEvent::AppendSent { handle: h });
            lemma_reports_push(r.log, e);
            lemma_no_resume_push(r.log, e);
            let k = choose|k: int| ready_at(r.log, h, k);
            assert(ready_at(r2.log, h, k));
        },
        _ => {
            assert(r2 == r);
        },
    }
}

/// Each operation keeps a run consistent.
pub proof fn lemma_apply_consistent(
    r: Run,
    op: Op,
    h: CommandHandle,
    spec: StreamedAppend,
    prefix: Seq<FragmentView>,
)
    requires
        consistent(r, h, spec, prefix),
    ensures
        consistent(apply(r, op), h, spec, prefix),
{
    if !r.completed {
        match op {
            Op::Continuation => lemma_continuation_consistent(r, h, spec, prefix),
            Op::SetChunk(bytes) => lemma_set_chunk_consistent(r, bytes, h, spec, prefix),
            Op::Finish => lemma_finish_consistent(r, h, spec, prefix),
            Op::Push => lemma_push_consistent(r, h, spec, prefix),
            Op::FinishSending => lemma_finish_sending_consistent(r, h, spec, prefix),
        }
    }
}

/// Every run from a new state is consistent.
pub proof fn lemma_run_consistent(
    h: CommandHandle,
    spec: StreamedAppend,
    prefix: Seq<FragmentView>,
    ops: Seq<Op>,
)
    ensures
        consistent(run(AppendView::initial(h, spec, prefix), ops), h, spec, prefix),
    decreases ops.len(),
{
    let s0 = AppendView::initial(h, spec, prefix);
    if ops.len() == 0 {
        let r = run(s0, ops);
        assert(r.out + held(s0.phase) + fragments_data(s0.prefix) =~= fragments_data(prefix));
        assert(r.accepted.take(0) =~= Seq::<Seq<u8>>::empty());
    } else {
        lemma_run_consistent(h, spec, prefix, ops.drop_last());
        lemma_apply_consistent(run(s0, ops.drop_last()), ops.last(), h, spec, prefix);
    }
}

/// Without a continuation nothing that waits for one leaves: when the body
/// literal or a literal of the prefix is synchronizing and no continuation
/// is accepted, the output is nothing or exactly the prefix data before the
/// first synchronizing literal (the whole prefix if there is none), no chunk
/// is accepted, no body byte is counted and nothing is reported.
pub proof fn lemma_nothing_leaves_without_continuation(
    h: CommandHandle,
    spec: StreamedAppend,
    prefix: Seq<FragmentView>,
    ops: Seq<Op>,
)
    requires
        waits_for_continuation(spec, prefix),
        no_resume(run(AppendView::initial(h, spec, prefix), ops).log),
    ensures
        ({
            let r = run(AppendView::initial(h, spec, prefix), ops);
            &&& r.out == Seq::<u8>::empty() || r.out == split_prefix(prefix).0
            &&& r.accepted == Seq::<Seq<u8>>::empty()
            &&& r.log == Seq::<Note>::empty()
            &&& r.state.written == 0
            &&& !r.completed
        }),
{
    let r = run(AppendView::initial(h, spec, prefix), ops);
    lemma_run_consistent(h, spec, prefix, ops);
    assert(stuck(r, prefix));
    assert(!ready_reported(r.state.phase));
    if r.log.len() > 0 {
        assert(r.log[0] is Resumed);
    }
    assert(r.log =~= Seq::<Note>::empty());
    assert(r.accepted =~= Seq::<Seq<u8>>::empty());
}

/// A complete run sends everything in order: once the final `\r\n` was
/// handed out, the output is the data of all prefix fragments, then the
/// accepted chunks in order, then `\r\n`, and the chunks add up to the
/// declared length.
pub proof fn lemma_complete_run_output(
    h: CommandHandle,
    spec: StreamedAppend,
    prefix: Seq<FragmentView>,
    ops: Seq<Op>,
)
    requires
        run(AppendView::initial(h, spec, prefix), ops).state.phase == PhaseView::Finished,
    ensures
        ({
            let r = run(AppendView::initial(h, spec, prefix), ops);
            &&& r.out == fragments_data(prefix) + flatten(r.accepted) + crlf()
            &&& flatten(r.accepted).len() == spec.length
        }),
{
    let r = run(AppendView::initial(h, spec, prefix), ops);
    lemma_run_consistent(h, spec, prefix, ops);
    assert(r.accepted.take(r.accepted.len() as int) =~= r.accepted);
}

/// The count of body bytes is what was reported: throughout a run the
/// handle and parameters stay the ones it started with, the count never
/// exceeds the declared length, each `AppendChunkSent` reports the total
/// length of the chunks accepted up to and including its own, and the count
/// equals the total length of the chunks reported so far; at most the last
/// accepted chunk is not reported yet.
pub proof fn lemma_written_is_reported_total(
    h: CommandHandle,
    spec: StreamedAppend,
    prefix: Seq<FragmentView>,
    ops: Seq<Op>,
)
    ensures
        ({
            let r = run(AppendView::initial(h, spec, prefix), ops);
            let reports = chunk_reports(r.log);
            &&& r.state.handle == h
            &&& r.state.spec == spec
            &&& r.state.written <= spec.length
            &&& reports.len() <= r.accepted.len() <= reports.len() + 1
            &&& r.state.written == flatten(r.accepted.take(reports.len() as int)).len()
            &&& forall|i: int|
                0 <= i < reports.len() ==> #[trigger] reports[i] == flatten(
                    r.accepted.take(i + 1),
                ).len()
        }),
{
    lemma_run_consistent(h, spec, prefix, ops);
}

/// Readiness is reported once, and first: every event of a run carries its
/// handle, `AppendReady` comes at most once, every other event comes after
/// it, no continuation is accepted after it, and `AppendSent` can only be
/// the last note.
pub proof fn lemma_ready_reported_once(
    h: CommandHandle,
    spec: StreamedAppend,
    prefix: Seq<FragmentView>,
    ops: Seq<Op>,
)
    ensures
        ({
            let log = run(AppendView::initial(h, spec, prefix), ops).log;
            &&& forall|i: int|
                0 <= i < log.len() && #[trigger] log[i] is Event ==> (log[i] == Note::Event(
                    ClientSendEvent::AppendReady { handle: h },
                ) || is_body_event(log[i], h) || log[i] == Note::Event(
                    ClientSendEvent::AppendSent { handle: h },
                ))
            &&& forall|i: int, j: int|
                #![trigger log[i], log[j]]
                0 <= i < j < log.len() && log[i] == Note::Event(
                    ClientSendEvent::AppendReady { handle: h },
                ) ==> log[j] != log[i] && !(log[j] is Resumed)
            &&& forall|j: int|
                0 <= j < log.len() && #[trigger] log[j] is Event && log[j] != Note::Event(
                    ClientSendEvent::AppendReady { handle: h },
                ) ==> exists|i: int|
                    0 <= i < j && #[trigger] log[i] == Note::Event(
                        ClientSendEvent::AppendReady { handle: h },
                    )
            &&& forall|j: int|
                0 <= j < log.len() && #[trigger] log[j] == Note::Event(
                    ClientSendEvent::AppendSent { handle: h },
                ) ==> j == log.len() - 1
        }),
{
    let r = run(AppendView::initial(h, spec, prefix), ops);
    let log = r.log;
    lemma_run_consistent(h, spec, prefix, ops);
    if ready_reported(r.state.phase) {
        let k = choose|k: int| ready_at(log, h, k);
        assert forall|j: int|
            0 <= j < log.len() && #[trigger] log[j] is Event && log[j] != Note::Event(
                ClientSendEvent::AppendReady { handle: h },
            ) implies exists|i: int|
            0 <= i < j && #[trigger] log[i] == Note::Event(
                ClientSendEvent::AppendReady { handle: h },
            ) by {
            assert(log[k] == Note::Event(ClientSendEvent::AppendReady { handle: h }));
        }
    }
}

} // verus!
