//! The state machine that sends one streamed `APPEND` command.
//!
//! The command prefix (tag, mailbox, flags, date and the announcement of the
//! body literal) is written first; a synchronizing literal inside it, and a
//! synchronizing body literal, wait for a continuation request of the server.
//! Then the body follows in checked chunks, and an explicit finish ends the
//! literal and the command with `\r\n`.

use std::collections::VecDeque;
use vstd::prelude::*;

use crate::event::{ClientSendEvent, CommandHandle, FinishSendingResult};
use crate::fragment::{fragments_view, Fragment, FragmentView, LiteralMode};

verus! {

/// The largest chunk of an `APPEND` body that is accepted at once.
pub const MAX_CHUNK_LEN: usize = 65536;

/// The parameters of a streamed `APPEND` that govern how its body is sent.
#[derive(Clone, Copy, Debug, PartialEq, Eq, Structural)]
pub struct StreamedAppend {
    /// The declared length of the message body in bytes.
    pub length: u64,
    /// Whether the body is a `BINARY` literal, the only kind that may hold NUL.
    pub binary: bool,
    /// How the body literal is announced.
    pub mode: LiteralMode,
}

/// Where a streamed `APPEND` stands.
enum Phase {
    /// The prefix is to be written; it starts with the accepted literal, if any.
    Prefix(Option<Vec<u8>>),
    /// The prefix was handed out up to a synchronizing literal, if any.
    PrefixWritten(Option<Vec<u8>>),
    /// A synchronizing literal of the prefix waits for a continuation.
    MetadataContinuation(Vec<u8>),
    /// The synchronizing body literal waits for a continuation.
    HeaderContinuation,
    /// The body may be sent; `false` until the readiness was reported.
    Ready(bool),
    /// A chunk is to be written.
    Chunk(Vec<u8>),
    /// A chunk of the given length was handed out.
    ChunkWritten(usize),
    /// The final `\r\n` is to be written.
    Finish,
    /// Everything was handed out.
    Finished,
}

/// The mathematical value of the phase of an `APPEND`.
pub enum PhaseView {
    Prefix(Option<Seq<u8>>),
    PrefixWritten(Option<Seq<u8>>),
    MetadataContinuation(Seq<u8>),
    HeaderContinuation,
    Ready(bool),
    Chunk(Seq<u8>),
    ChunkWritten(nat),
    Finish,
    Finished,
}

/// The view of an optional byte buffer.
pub open spec fn opt_bytes_view(o: Option<Vec<u8>>) -> Option<Seq<u8>> {
    match o {
        Some(v) => Some(v@),
        None => None,
    }
}

impl Phase {
    spec fn phase_view(&self) -> PhaseView {
        match self {
            Phase::Prefix(o) => PhaseView::Prefix(opt_bytes_view(*o)),
            Phase::PrefixWritten(o) => PhaseView::PrefixWritten(opt_bytes_view(*o)),
            Phase::MetadataContinuation(b) => PhaseView::MetadataContinuation(b@),
            Phase::HeaderContinuation => PhaseView::HeaderContinuation,
            Phase::Ready(r) => PhaseView::Ready(*r),
            Phase::Chunk(b) => PhaseView::Chunk(b@),
            Phase::ChunkWritten(n) => PhaseView::ChunkWritten(*n as nat),
            Phase::Finish => PhaseView::Finish,
            Phase::Finished => PhaseView::Finished,
        }
    }
}

/// The mathematical value of an [`AppendState`].
pub struct AppendView {
    pub handle: CommandHandle,
    pub spec: StreamedAppend,
    /// The fragments of the prefix that were not handed out yet.
    pub prefix: Seq<FragmentView>,
    pub phase: PhaseView,
    /// The number of body bytes sent so far.
    pub written: u64,
}

impl AppendView {
    /// The same state in another phase.
    pub open spec fn with_phase(self, phase: PhaseView) -> AppendView {
        AppendView { phase, ..self }
    }

    /// The state of a new `APPEND` whose prefix encodes as `prefix`.
    pub open spec fn initial(handle: CommandHandle, spec: StreamedAppend, prefix: Seq<FragmentView>) -> AppendView {
        AppendView { handle, spec, prefix, phase: PhaseView::Prefix(None), written: 0 }
    }

    /// What every reachable state satisfies: the body never exceeds its
    /// declared length, no body byte is sent before the body is ready, and
    /// the literal is only finished when all declared bytes were sent.
    pub open spec fn wf(self) -> bool {
        &&& self.written <= self.spec.length
        &&& match self.phase {
            PhaseView::Prefix(_) => self.written == 0,
            PhaseView::PrefixWritten(_) => self.written == 0,
            PhaseView::MetadataContinuation(_) => self.written == 0,
            PhaseView::HeaderContinuation => self.written == 0,
            PhaseView::Ready(reported) => !reported ==> self.written == 0,
            PhaseView::Chunk(bytes) => {
                &&& 0 < bytes.len() <= MAX_CHUNK_LEN
                &&& self.written + bytes.len() <= self.spec.length
            },
            PhaseView::ChunkWritten(count) => {
                &&& 0 < count <= MAX_CHUNK_LEN
                &&& self.written + count <= self.spec.length
            },
            PhaseView::Finish => self.written == self.spec.length,
            PhaseView::Finished => self.written == self.spec.length,
        }
    }
}

/// Hands out the fragments of a prefix up to the first synchronizing literal:
/// the bytes to send, that literal's data (which waits for a continuation)
/// and the fragments after it.
pub open spec fn split_prefix(frags: Seq<FragmentView>) -> (Seq<u8>, Option<Seq<u8>>, Seq<FragmentView>)
    decreases frags.len(),
{
    if frags.len() == 0 {
        (Seq::empty(), None, Seq::empty())
    } else {
        match frags[0] {
            FragmentView::Literal(data, LiteralMode::Sync) => (Seq::empty(), Some(data), frags.drop_first()),
            FragmentView::Literal(data, LiteralMode::NonSync) => {
                let rest = split_prefix(frags.drop_first());
                (data + rest.0, rest.1, rest.2)
            },
            FragmentView::Line(data) => {
                let rest = split_prefix(frags.drop_first());
                (data + rest.0, rest.1, rest.2)
            },
        }
    }
}

/// The effect of a continuation request on a state: the new state, and
/// whether the `APPEND` was waiting for it.
pub open spec fn continuation_step(s: AppendView) -> (AppendView, bool) {
    match s.phase {
        PhaseView::MetadataContinuation(bytes) => (s.with_phase(PhaseView::Prefix(Some(bytes))), true),
        PhaseView::HeaderContinuation => (s.with_phase(PhaseView::Ready(false)), true),
        _ => (s, false),
    }
}

/// Whether a chunk is accepted, and if not, why.
pub open spec fn chunk_check(s: AppendView, bytes: Seq<u8>) -> Result<(), &'static str> {
    if s.phase != PhaseView::Ready(true) {
        Err("APPEND is not ready for a chunk")
    } else if bytes.len() == 0 || bytes.len() > MAX_CHUNK_LEN {
        Err("APPEND chunks must contain 1 through 65536 bytes")
    } else if bytes.len() > s.spec.length - s.written {
        Err("APPEND chunk exceeds the declared remaining length")
    } else if !s.spec.binary && bytes.contains(0u8) {
        Err("NUL requires a BINARY APPEND literal")
    } else {
        Ok(())
    }
}

/// The state after offering a chunk.
pub open spec fn set_chunk_step(s: AppendView, bytes: Seq<u8>) -> AppendView {
    if chunk_check(s, bytes) is Ok {
        s.with_phase(PhaseView::Chunk(bytes))
    } else {
        s
    }
}

/// Whether the body may be finished, and if not, why.
pub open spec fn finish_check(s: AppendView) -> Result<(), &'static str> {
    if s.phase != PhaseView::Ready(true) {
        Err("APPEND is not ready to finish")
    } else if s.written != s.spec.length {
        Err("APPEND has not received the declared number of bytes")
    } else {
        Ok(())
    }
}

/// The state after asking to finish the body.
pub open spec fn finish_step(s: AppendView) -> AppendView {
    if finish_check(s) is Ok {
        s.with_phase(PhaseView::Finish)
    } else {
        s
    }
}

/// The bytes that end the body literal and the command.
pub open spec fn crlf() -> Seq<u8> {
    seq![13u8, 10u8]
}

/// The state after handing out what is due, and the bytes handed out.
pub open spec fn push_step(s: AppendView) -> (AppendView, Seq<u8>) {
    match s.phase {
        PhaseView::Prefix(accepted) => {
            let head = match accepted {
                Some(bytes) => bytes,
                None => Seq::empty(),
            };
            let (bytes, pending, rest) = split_prefix(s.prefix);
            (AppendView { prefix: rest, phase: PhaseView::PrefixWritten(pending), ..s }, head + bytes)
        },
        PhaseView::Chunk(bytes) => (s.with_phase(PhaseView::ChunkWritten(bytes.len())), bytes),
        PhaseView::Finish => (s.with_phase(PhaseView::Finished), crlf()),
        _ => (s, Seq::empty()),
    }
}

/// What follows once the handed-out bytes were written.
pub open spec fn finish_sending_step(s: AppendView) -> FinishSendingResult<AppendView> {
    match s.phase {
        PhaseView::PrefixWritten(Some(bytes)) => FinishSendingResult::Uncompleted {
            state: s.with_phase(PhaseView::MetadataContinuation(bytes)),
            event: None,
        },
        PhaseView::PrefixWritten(None) => if s.spec.mode == LiteralMode::Sync {
            FinishSendingResult::Uncompleted {
                state: s.with_phase(PhaseView::HeaderContinuation),
                event: None,
            }
        } else {
            FinishSendingResult::Uncompleted {
                state: s.with_phase(PhaseView::Ready(true)),
                event: Some(ClientSendEvent::AppendReady { handle: s.handle }),
            }
        },
        PhaseView::Ready(false) => FinishSendingResult::Uncompleted {
            state: s.with_phase(PhaseView::Ready(true)),
            event: Some(ClientSendEvent::AppendReady { handle: s.handle }),
        },
        PhaseView::ChunkWritten(count) => {
            let written = (s.written + count) as u64;
            FinishSendingResult::Uncompleted {
                state: AppendView { written, phase: PhaseView::Ready(true), ..s },
                event: Some(ClientSendEvent::AppendChunkSent { handle: s.handle, written }),
            }
        },
        PhaseView::Finished => FinishSendingResult::Completed {
            event: ClientSendEvent::AppendSent { handle: s.handle },
        },
        _ => FinishSendingResult::Uncompleted { state: s, event: None },
    }
}

/// The sending state of one streamed `APPEND` command.
pub struct AppendState {
    pub handle: CommandHandle,
    pub spec: StreamedAppend,
    prefix: VecDeque<Fragment>,
    phase: Phase,
    written: u64,
}

impl View for AppendState {
    type V = AppendView;

    closed spec fn view(&self) -> AppendView {
        AppendView {
            handle: self.handle,
            spec: self.spec,
            prefix: fragments_view(self.prefix@),
            phase: self.phase.phase_view(),
            written: self.written,
        }
    }
}


/// Moves the fragments of `prefix` into `out` up to the first synchronizing
/// literal, which is taken out of `prefix` and returned.
fn drain_prefix(prefix: &mut VecDeque<Fragment>, out: &mut Vec<u8>) -> (pending: Option<Vec<u8>>)
    ensures
        final(out)@ == old(out)@ + split_prefix(fragments_view(old(prefix)@)).0,
        opt_bytes_view(pending) == split_prefix(fragments_view(old(prefix)@)).1,
        fragments_view(final(prefix)@) == split_prefix(fragments_view(old(prefix)@)).2,
{
    let ghost whole = split_prefix(fragments_view(prefix@));
    let ghost out0 = out@;
    let ghost mut sent: Seq<u8> = Seq::empty();
    let mut pending: Option<Vec<u8>> = None;
    loop
        invariant_except_break
            pending is None,
            out@ == out0 + sent,
            sent + split_prefix(fragments_view(prefix@)).0 == whole.0,
            split_prefix(fragments_view(prefix@)).1 == whole.1,
            split_prefix(fragments_view(prefix@)).2 == whole.2,
        ensures
            out@ == out0 + whole.0,
            opt_bytes_view(pending) == whole.1,
            fragments_view(prefix@) == whole.2,
        decreases prefix@.len(),
    {
        let ghost cur = fragments_view(prefix@);
        match prefix.pop_front() {
            None => {
                assert(cur =~= Seq::<FragmentView>::empty());
                assert(sent =~= sent + Seq::<u8>::empty());
                break;
            },
            Some(fragment) => {
                assert(fragments_view(prefix@) =~= cur.drop_first());
                assert(cur[0] == fragment@);
                match fragment {
                    Fragment::Literal { data, mode: LiteralMode::Sync } => {
                        assert(sent =~= sent + Seq::<u8>::empty());
                        pending = Some(data);
                        break;
                    },
                    Fragment::Line { mut data }
                    | Fragment::Literal { mut data, mode: LiteralMode::NonSync } => {
                        proof {
                            assert(sent + (data@ + split_prefix(cur.drop_first()).0) =~= (sent
                                + data@) + split_prefix(cur.drop_first()).0);
                            sent = sent + data@;
                        }
                        out.append(&mut data);
                        assert(out@ =~= out0 + sent);
                    },
                }
            },
        }
    }
    pending
}

/// Whether `bytes` holds a NUL byte.
fn contains_nul(bytes: &[u8]) -> (r: bool)
    ensures
        r == bytes@.contains(0u8),
{
    let mut i: usize = 0;
    while i < bytes.len()
        invariant
            0 <= i <= bytes@.len(),
            forall|j: int| 0 <= j < i ==> bytes@[j] != 0u8,
        decreases bytes@.len() - i,
    {
        if bytes[i] == 0u8 {
            assert(bytes@[i as int] == 0u8);
            return true;
        }
        i = i + 1;
    }
    false
}

impl AppendState {
    /// The handle of the command.
    pub fn handle(&self) -> (h: CommandHandle)
        ensures
            h == self@.handle,
    {
        self.handle
    }

    /// The parameters of the `APPEND`.
    pub fn spec(&self) -> (spec: StreamedAppend)
        ensures
            spec == self@.spec,
    {
        self.spec
    }

    /// Starts an `APPEND` whose prefix was encoded as `prefix`; an encoding
    /// error is returned as it is.
    pub fn new(
        handle: CommandHandle,
        spec: StreamedAppend,
        prefix: Result<Vec<Fragment>, &'static str>,
    ) -> (r: Result<Self, &'static str>)
        ensures
            prefix is Ok <==> r is Ok,
            prefix matches Err(e) ==> r == Err::<Self, &'static str>(e),
            prefix matches Ok(frags) ==> r matches Ok(state) && state@ == AppendView::initial(
                handle,
                spec,
                fragments_view(frags@),
            ) && state@.wf(),
    {
        let mut frags = match prefix {
            Ok(frags) => frags,
            Err(e) => return Err(e),
        };
        let ghost all = frags@;
        let mut queue: VecDeque<Fragment> = VecDeque::new();
        loop
            invariant
                frags@ + queue@ == all,
            ensures
                queue@ == all,
            decreases frags@.len(),
        {
            match frags.pop() {
                Some(fragment) => {
                    queue.push_front(fragment);
                    assert(frags@ + queue@ =~= all);
                },
                None => {
                    assert(queue@ =~= all);
                    break;
                },
            }
        }
        Ok(AppendState { handle, spec, prefix: queue, phase: Phase::Prefix(None), written: 0 })
    }

    /// Takes a continuation request of the server. Returns whether the
    /// `APPEND` was waiting for one; if not, nothing changes.
    pub fn continuation(&mut self) -> (r: bool)
        requires
            old(self)@.wf(),
        ensures
            final(self)@ == continuation_step(old(self)@).0,
            r == continuation_step(old(self)@).1,
            final(self)@.wf(),
    {
        let mut phase = Phase::Finished;
        std::mem::swap(&mut phase, &mut self.phase);
        match phase {
            Phase::MetadataContinuation(bytes) => {
                self.phase = Phase::Prefix(Some(bytes));
                true
            },
            Phase::HeaderContinuation => {
                self.phase = Phase::Ready(false);
                true
            },
            phase => {
                self.phase = phase;
                false
            },
        }
    }

    /// Checks whether `bytes` may be sent as the next chunk of the body.
    pub fn check_chunk(&self, bytes: &[u8]) -> (r: Result<(), &'static str>)
        requires
            self@.wf(),
        ensures
            r == chunk_check(self@, bytes@),
            r is Ok <==> {
                &&& self@.phase == PhaseView::Ready(true)
                &&& 1 <= bytes@.len() <= 65536
                &&& self@.written + bytes@.len() <= self@.spec.length
                &&& (self@.spec.binary || forall|i: int| 0 <= i < bytes@.len() ==> #[trigger] bytes@[i] != 0u8)
            },
    {
        proof {
            crate::laws::lemma_chunk_acceptance(self@, bytes@);
        }
        let ready = match self.phase {
            Phase::Ready(reported) => reported,
            _ => false,
        };
        if !ready {
            return Err("APPEND is not ready for a chunk");
        }
        if bytes.len() == 0 || bytes.len() > MAX_CHUNK_LEN {
            return Err("APPEND chunks must contain 1 through 65536 bytes");
        }
        if bytes.len() as u64 > self.spec.length - self.written {
            return Err("APPEND chunk exceeds the declared remaining length");
        }
        if !self.spec.binary && contains_nul(bytes) {
            return Err("NUL requires a BINARY APPEND literal");
        }
        Ok(())
    }

    /// Offers `bytes` as the next chunk of the body; a refused chunk leaves
    /// the state as it was.
    pub fn set_chunk(&mut self, bytes: Vec<u8>) -> (r: Result<(), &'static str>)
        requires
            old(self)@.wf(),
        ensures
            r == chunk_check(old(self)@, bytes@),
            r is Ok <==> {
                &&& old(self)@.phase == PhaseView::Ready(true)
                &&& 1 <= bytes@.len() <= 65536
                &&& old(self)@.written + bytes@.len() <= old(self)@.spec.length
                &&& (old(self)@.spec.binary || forall|i: int| 0 <= i < bytes@.len() ==> #[trigger] bytes@[i] != 0u8)
            },
            final(self)@ == set_chunk_step(old(self)@, bytes@),
            final(self)@.wf(),
    {
        proof {
            crate::laws::lemma_chunk_acceptance(old(self)@, bytes@);
        }
        match self.check_chunk(bytes.as_slice()) {
            Ok(()) => {},
            Err(e) => return Err(e),
        }
        self.phase = Phase::Chunk(bytes);
        Ok(())
    }

    /// Checks whether the body may be finished.
    pub fn check_finish(&self) -> (r: Result<(), &'static str>)
        requires
            self@.wf(),
        ensures
            r == finish_check(self@),
    {
        let ready = match self.phase {
            Phase::Ready(reported) => reported,
            _ => false,
        };
        if !ready {
            return Err("APPEND is not ready to finish");
        }
        if self.written != self.spec.length {
            return Err("APPEND has not received the declared number of bytes");
        }
        Ok(())
    }

    /// Asks to finish the body; a refusal leaves the state as it was.
    pub fn finish(&mut self) -> (r: Result<(), &'static str>)
        requires
            old(self)@.wf(),
        ensures
            r == finish_check(old(self)@),
            final(self)@ == finish_step(old(self)@),
            final(self)@.wf(),
    {
        match self.check_finish() {
            Ok(()) => {},
            Err(e) => return Err(e),
        }
        self.phase = Phase::Finish;
        Ok(())
    }

    /// Appends to `out` what is due now: the prefix up to the next
    /// synchronizing literal, a chunk, or the final `\r\n`.
    pub fn push_to_buffer(self, out: &mut Vec<u8>) -> (r: Self)
        requires
            self@.wf(),
        ensures
            r@ == push_step(self@).0,
            final(out)@ == old(out)@ + push_step(self@).1,
            r@.wf(),
    {
        let ghost s = self@;
        let mut this = self;
        let mut phase = Phase::Finished;
        std::mem::swap(&mut phase, &mut this.phase);
        let next = match phase {
            Phase::Prefix(accepted) => {
                let ghost out0 = out@;
                if let Some(mut bytes) = accepted {
                    out.append(&mut bytes);
                }
                let pending = drain_prefix(&mut this.prefix, out);
                assert(out@ =~= out0 + push_step(s).1);
                Phase::PrefixWritten(pending)
            },
            Phase::Chunk(mut bytes) => {
                let count = bytes.len();
                out.append(&mut bytes);
                Phase::ChunkWritten(count)
            },
            Phase::Finish => {
                out.push(13u8);
                out.push(10u8);
                assert(out@ =~= old(out)@ + crlf());
                Phase::Finished
            },
            phase => {
                assert(out@ =~= old(out)@ + Seq::<u8>::empty());
                phase
            },
        };
        this.phase = next;
        this
    }

    /// Takes note that what [`Self::push_to_buffer`] handed out was written,
    /// and says what follows.
    pub fn finish_sending(self) -> (r: FinishSendingResult<Self>)
        requires
            self@.wf(),
        ensures
            r@ == finish_sending_step(self@),
            r matches FinishSendingResult::Uncompleted { state, .. } ==> state@.wf(),
    {
        let mut this = self;
        let mut phase = Phase::Finished;
        std::mem::swap(&mut phase, &mut this.phase);
        match phase {
            Phase::PrefixWritten(Some(bytes)) => {
                this.phase = Phase::MetadataContinuation(bytes);
                FinishSendingResult::Uncompleted { state: this, event: None }
            },
            Phase::PrefixWritten(None) => {
                if this.spec.mode == LiteralMode::Sync {
                    this.phase = Phase::HeaderContinuation;
                    FinishSendingResult::Uncompleted { state: this, event: None }
                } else {
                    this.phase = Phase::Ready(true);
                    let event = ClientSendEvent::AppendReady { handle: this.handle };
                    FinishSendingResult::Uncompleted { state: this, event: Some(event) }
                }
            },
            Phase::Ready(false) => {
                this.phase = Phase::Ready(true);
                let event = ClientSendEvent::AppendReady { handle: this.handle };
                FinishSendingResult::Uncompleted { state: this, event: Some(event) }
            },
            Phase::ChunkWritten(count) => {
                this.written = this.written + count as u64;
                this.phase = Phase::Ready(true);
                let event = ClientSendEvent::AppendChunkSent {
                    handle: this.handle,
                    written: this.written,
                };
                FinishSendingResult::Uncompleted { state: this, event: Some(event) }
            },
            Phase::Finished => {
                FinishSendingResult::Completed {
                    event: ClientSendEvent::AppendSent { handle: this.handle },
                }
            },
            phase => {
                this.phase = phase;
                FinishSendingResult::Uncompleted { state: this, event: None }
            },
        }
    }
}

} // verus!
