//! Properties of the `APPEND` state machine that span several operations.

use vstd::prelude::*;

use crate::append::{
    chunk_check, continuation_step, crlf, finish_check, finish_sending_step, finish_step,
    push_step, set_chunk_step, split_prefix, AppendView, PhaseView,
};
use crate::event::{ClientSendEvent, FinishSendingResult};
use crate::fragment::{FragmentView, LiteralMode};

verus! {

/// The state that follows a state once its handed-out bytes were written;
/// a completed command keeps the state it had.
pub open spec fn after_sending(s: AppendView) -> AppendView {
    match finish_sending_step(s) {
        FinishSendingResult::Uncompleted { state, .. } => state,
        FinishSendingResult::Completed { .. } => s,
    }
}

/// Offering a chunk, handing it out and taking note that it was written.
pub open spec fn send_chunk(s: AppendView, bytes: Seq<u8>) -> AppendView {
    after_sending(push_step(set_chunk_step(s, bytes)).0)
}

/// Sends the chunks one after the other.
pub open spec fn send_chunks(s: AppendView, chunks: Seq<Seq<u8>>) -> AppendView
    decreases chunks.len(),
{
    if chunks.len() == 0 {
        s
    } else {
        send_chunks(send_chunk(s, chunks[0]), chunks.drop_first())
    }
}

/// Whether each chunk is accepted in its turn.
pub open spec fn all_accepted(s: AppendView, chunks: Seq<Seq<u8>>) -> bool
    decreases chunks.len(),
{
    chunks.len() == 0 || (chunk_check(s, chunks[0]) is Ok && all_accepted(
        send_chunk(s, chunks[0]),
        chunks.drop_first(),
    ))
}

/// The number of bytes in all chunks.
pub open spec fn total_len(chunks: Seq<Seq<u8>>) -> nat
    decreases chunks.len(),
{
    if chunks.len() == 0 {
        0
    } else {
        chunks[0].len() + total_len(chunks.drop_first())
    }
}

/// Every step keeps the handle, the parameters and the well-formedness of a
/// state, and never lowers the count of body bytes sent.
pub proof fn lemma_steps_keep_invariant(s: AppendView, bytes: Seq<u8>)
    requires
        s.wf(),
    ensures
        continuation_step(s).0.wf(),
        set_chunk_step(s, bytes).wf(),
        finish_step(s).wf(),
        push_step(s).0.wf(),
        after_sending(s).wf(),
        continuation_step(s).0.handle == s.handle && continuation_step(s).0.spec == s.spec,
        set_chunk_step(s, bytes).handle == s.handle && set_chunk_step(s, bytes).spec == s.spec,
        finish_step(s).handle == s.handle && finish_step(s).spec == s.spec,
        push_step(s).0.handle == s.handle && push_step(s).0.spec == s.spec,
        after_sending(s).handle == s.handle && after_sending(s).spec == s.spec,
        s.written <= continuation_step(s).0.written,
        s.written <= set_chunk_step(s, bytes).written,
        s.written <= finish_step(s).written,
        s.written <= push_step(s).0.written,
        s.written <= after_sending(s).written,
{
}

/// When a chunk is accepted: exactly when the body is ready and was reported
/// ready, the chunk holds 1 through 65536 bytes, it fits in what remains of
/// the declared length, and it holds no NUL byte at any position unless the
/// literal is BINARY (whatever the literal's mode). An accepted chunk then
/// becomes the chunk to hand out; a refused one changes nothing.
pub proof fn lemma_chunk_acceptance(s: AppendView, bytes: Seq<u8>)
    requires
        s.wf(),
    ensures
        chunk_check(s, bytes) is Ok <==> {
            &&& s.phase == PhaseView::Ready(true)
            &&& 1 <= bytes.len() <= 65536
            &&& s.written + bytes.len() <= s.spec.length
            &&& (s.spec.binary || forall|i: int| 0 <= i < bytes.len() ==> #[trigger] bytes[i] != 0u8)
        },
        chunk_check(s, bytes) is Ok ==> set_chunk_step(s, bytes) == s.with_phase(
            PhaseView::Chunk(bytes),
        ),
        chunk_check(s, bytes) is Err ==> set_chunk_step(s, bytes) == s,
        s.phase != PhaseView::Ready(true) ==> chunk_check(s, bytes) == Err::<(), &'static str>(
            "APPEND is not ready for a chunk",
        ),
        s.phase == PhaseView::Ready(true) && (bytes.len() == 0 || bytes.len() > 65536)
            ==> chunk_check(s, bytes) == Err::<(), &'static str>(
            "APPEND chunks must contain 1 through 65536 bytes",
        ),
        s.phase == PhaseView::Ready(true) && 1 <= bytes.len() <= 65536 && s.written + bytes.len()
            > s.spec.length ==> chunk_check(s, bytes) == Err::<(), &'static str>(
            "APPEND chunk exceeds the declared remaining length",
        ),
        s.phase == PhaseView::Ready(true) && 1 <= bytes.len() <= 65536 && s.written + bytes.len()
            <= s.spec.length && !s.spec.binary && (exists|i: int|
            0 <= i < bytes.len() && #[trigger] bytes[i] == 0u8) ==> chunk_check(s, bytes) == Err::<
            (),
            &'static str,
        >("NUL requires a BINARY APPEND literal"),
{
    if !s.spec.binary {
        if forall|i: int| 0 <= i < bytes.len() ==> #[trigger] bytes[i] != 0u8 {
            assert(!bytes.contains(0u8));
        } else {
            let i = choose|i: int| 0 <= i < bytes.len() && #[trigger] bytes[i] == 0u8;
            assert(bytes.contains(0u8)) by {
                assert(bytes[i] == 0u8);
            }
        }
    }
}

/// When finishing is accepted: exactly when the body was reported ready and
/// all declared bytes were sent; it then waits for the final `\r\n`, and a
/// refusal changes nothing.
pub proof fn lemma_finish_acceptance(s: AppendView)
    requires
        s.wf(),
    ensures
        finish_check(s) is Ok <==> s.phase == PhaseView::Ready(true) && s.written == s.spec.length,
        finish_check(s) is Ok ==> finish_step(s) == s.with_phase(PhaseView::Finish),
        finish_check(s) is Err ==> finish_step(s) == s,
{
}

/// A continuation is taken exactly when a literal waits for one: a withheld
/// prefix literal is then resumed, a synchronizing body literal becomes
/// ready; otherwise nothing changes.
pub proof fn lemma_continuation_answer(s: AppendView)
    requires
        s.wf(),
    ensures
        continuation_step(s).1 <==> (s.phase is MetadataContinuation || s.phase is HeaderContinuation),
        !continuation_step(s).1 ==> continuation_step(s).0 == s,
        s.phase matches PhaseView::MetadataContinuation(data) ==> continuation_step(s).0
            == s.with_phase(PhaseView::Prefix(Some(data))),
        s.phase is HeaderContinuation ==> continuation_step(s).0 == s.with_phase(
            PhaseView::Ready(false),
        ),
{
}

/// What is handed out is handed out once: a second hand-out before the
/// first was written gives nothing.
pub proof fn lemma_push_hands_out_once(s: AppendView)
    requires
        s.wf(),
    ensures
        push_step(push_step(s).0).1 == Seq::<u8>::empty(),
        push_step(push_step(s).0).0 == push_step(s).0,
{
}

/// An accepted chunk is handed out byte for byte, and once written it is
/// reported with the new count of body bytes; the body is then ready for the
/// next chunk.
pub proof fn lemma_accepted_chunk_is_sent(s: AppendView, bytes: Seq<u8>)
    requires
        s.wf(),
        chunk_check(s, bytes) is Ok,
    ensures
        push_step(set_chunk_step(s, bytes)).1 == bytes,
        finish_sending_step(push_step(set_chunk_step(s, bytes)).0) == (FinishSendingResult::<
            AppendView,
        >::Uncompleted {
            state: AppendView {
                written: (s.written + bytes.len()) as u64,
                phase: PhaseView::Ready(true),
                ..s
            },
            event: Some(
                ClientSendEvent::AppendChunkSent {
                    handle: s.handle,
                    written: (s.written + bytes.len()) as u64,
                },
            ),
        }),
{
}

/// Sending accepted chunks adds up their lengths, and the body may be
/// finished exactly when the declared length is reached.
pub proof fn lemma_body_adds_up(s: AppendView, chunks: Seq<Seq<u8>>)
    requires
        s.wf(),
        s.phase == PhaseView::Ready(true),
        all_accepted(s, chunks),
    ensures
        send_chunks(s, chunks).wf(),
        send_chunks(s, chunks).phase == PhaseView::Ready(true),
        send_chunks(s, chunks).written == s.written + total_len(chunks),
        send_chunks(s, chunks).handle == s.handle,
        send_chunks(s, chunks).spec == s.spec,
        finish_check(send_chunks(s, chunks)) is Ok <==> s.written + total_len(chunks)
            == s.spec.length,
    decreases chunks.len(),
{
    if chunks.len() > 0 {
        lemma_accepted_chunk_is_sent(s, chunks[0]);
        lemma_body_adds_up(send_chunk(s, chunks[0]), chunks.drop_first());
    }
}

/// Finishing hands out `\r\n` and then completes the command; it is only
/// accepted once the whole declared body was sent.
pub proof fn lemma_finish_completes(s: AppendView)
    requires
        s.wf(),
        finish_check(s) is Ok,
    ensures
        s.written == s.spec.length,
        push_step(finish_step(s)).1 == crlf(),
        finish_sending_step(push_step(finish_step(s)).0) == (FinishSendingResult::<
            AppendView,
        >::Completed { event: ClientSendEvent::AppendSent { handle: s.handle } }),
{
}

/// A synchronizing body literal waits for a continuation: once the prefix was
/// written, no chunk is accepted and nothing is handed out until the
/// continuation comes, and then the body is reported ready.
pub proof fn lemma_sync_body_waits(s: AppendView, bytes: Seq<u8>)
    requires
        s.wf(),
        s.phase == PhaseView::PrefixWritten(None),
        s.spec.mode == LiteralMode::Sync,
    ensures
        finish_sending_step(s) == (FinishSendingResult::<AppendView>::Uncompleted {
            state: s.with_phase(PhaseView::HeaderContinuation),
            event: None,
        }),
        chunk_check(after_sending(s), bytes) is Err,
        finish_check(after_sending(s)) is Err,
        push_step(after_sending(s)).1 == Seq::<u8>::empty(),
        continuation_step(after_sending(s)) == (s.with_phase(PhaseView::Ready(false)), true),
        finish_sending_step(continuation_step(after_sending(s)).0) == (FinishSendingResult::<
            AppendView,
        >::Uncompleted {
            state: s.with_phase(PhaseView::Ready(true)),
            event: Some(ClientSendEvent::AppendReady { handle: s.handle }),
        }),
{
}

/// A synchronizing literal of the prefix is held back until its
/// continuation: meanwhile nothing is handed out and no chunk is accepted;
/// after the continuation its data goes out first, followed by the prefix up
/// to the next synchronizing literal.
pub proof fn lemma_withheld_literal_waits(s: AppendView, data: Seq<u8>, bytes: Seq<u8>)
    requires
        s.wf(),
        s.phase == PhaseView::PrefixWritten(Some(data)),
    ensures
        finish_sending_step(s) == (FinishSendingResult::<AppendView>::Uncompleted {
            state: s.with_phase(PhaseView::MetadataContinuation(data)),
            event: None,
        }),
        push_step(after_sending(s)).1 == Seq::<u8>::empty(),
        chunk_check(after_sending(s), bytes) is Err,
        finish_check(after_sending(s)) is Err,
        continuation_step(after_sending(s)) == (s.with_phase(PhaseView::Prefix(Some(data))), true),
        push_step(continuation_step(after_sending(s)).0).1 == data + split_prefix(s.prefix).0,
{
}

/// Only an explicit finish leads to completion: before it, no other step
/// reaches the final `\r\n` or completes the command.
pub proof fn lemma_completion_needs_finish(s: AppendView, bytes: Seq<u8>)
    requires
        s.wf(),
        !(s.phase is Finish),
        !(s.phase is Finished),
    ensures
        finish_sending_step(s) is Uncompleted,
        !(after_sending(s).phase is Finish) && !(after_sending(s).phase is Finished),
        !(push_step(s).0.phase is Finish) && !(push_step(s).0.phase is Finished),
        !(continuation_step(s).0.phase is Finish) && !(continuation_step(s).0.phase is Finished),
        !(set_chunk_step(s, bytes).phase is Finish) && !(set_chunk_step(s, bytes).phase is Finished),
{
}

/// A non-synchronizing body literal is ready as soon as the prefix was
/// written.
pub proof fn lemma_nonsync_body_ready(s: AppendView)
    requires
        s.wf(),
        s.phase == PhaseView::PrefixWritten(None),
        s.spec.mode == LiteralMode::NonSync,
    ensures
        finish_sending_step(s) == (FinishSendingResult::<AppendView>::Uncompleted {
            state: s.with_phase(PhaseView::Ready(true)),
            event: Some(ClientSendEvent::AppendReady { handle: s.handle }),
        }),
{
}

/// The data a fragment puts on the wire.
pub open spec fn fragment_data(f: FragmentView) -> Seq<u8> {
    match f {
        FragmentView::Line(data) => data,
        FragmentView::Literal(data, _) => data,
    }
}

/// The data of all fragments, one after the other.
pub open spec fn fragments_data(frags: Seq<FragmentView>) -> Seq<u8>
    decreases frags.len(),
{
    if frags.len() == 0 {
        Seq::empty()
    } else {
        fragment_data(frags[0]) + fragments_data(frags.drop_first())
    }
}

/// Whether a fragment is a synchronizing literal.
pub open spec fn is_sync_literal(f: FragmentView) -> bool {
    f matches FragmentView::Literal(_, LiteralMode::Sync)
}

/// The bytes of an optional buffer, none for `None`.
pub open spec fn opt_data(o: Option<Seq<u8>>) -> Seq<u8> {
    match o {
        Some(data) => data,
        None => Seq::empty(),
    }
}

/// Splitting a prefix loses and adds nothing: the bytes handed out, the
/// withheld literal and the rest hold all data in order. Nothing is held
/// back only when the whole prefix was handed out, and what remains after a
/// withheld literal is shorter than the prefix.
pub proof fn lemma_split_keeps_data(frags: Seq<FragmentView>)
    ensures
        fragments_data(frags) == split_prefix(frags).0 + opt_data(split_prefix(frags).1)
            + fragments_data(split_prefix(frags).2),
        split_prefix(frags).1 is None ==> split_prefix(frags).2 == Seq::<FragmentView>::empty(),
        split_prefix(frags).1 is Some ==> split_prefix(frags).2.len() < frags.len(),
    decreases frags.len(),
{
    if frags.len() > 0 {
        let rest = frags.drop_first();
        lemma_split_keeps_data(rest);
        let r = split_prefix(rest);
        match frags[0] {
            FragmentView::Literal(data, LiteralMode::Sync) => {
                assert(fragments_data(frags) =~= Seq::<u8>::empty() + data + fragments_data(rest));
            },
            _ => {
                let d = fragment_data(frags[0]);
                assert(fragments_data(frags) =~= (d + r.0) + opt_data(r.1) + fragments_data(r.2));
            },
        }
    } else {
        assert(fragments_data(frags) =~= Seq::<u8>::empty() + Seq::<u8>::empty()
            + Seq::<u8>::empty());
    }
}

/// Handing out a prefix stops right before its first synchronizing literal,
/// whose data is held back; without one the whole prefix is handed out.
pub proof fn lemma_split_at_first_sync(before: Seq<FragmentView>, data: Seq<u8>, after: Seq<FragmentView>)
    requires
        forall|i: int| 0 <= i < before.len() ==> !is_sync_literal(#[trigger] before[i]),
    ensures
        split_prefix(before + seq![FragmentView::Literal(data, LiteralMode::Sync)] + after) == (
            fragments_data(before),
            Some(data),
            after,
        ),
        split_prefix(before) == (fragments_data(before), None::<Seq<u8>>, Seq::<FragmentView>::empty()),
    decreases before.len(),
{
    let lit = seq![FragmentView::Literal(data, LiteralMode::Sync)];
    if before.len() == 0 {
        assert(before + lit + after =~= lit + after);
        assert((lit + after).drop_first() =~= after);
    } else {
        let rest = before.drop_first();
        assert forall|i: int| 0 <= i < rest.len() implies !is_sync_literal(#[trigger] rest[i]) by {
            assert(rest[i] == before[i + 1]);
        }
        lemma_split_at_first_sync(rest, data, after);
        assert(!is_sync_literal(before[0]));
        assert((before + lit + after)[0] == before[0]);
        assert((before + lit + after).drop_first() =~= rest + lit + after);
        assert(fragment_data(before[0]) + fragments_data(rest) =~= fragments_data(before));
    }
}

/// Drives the prefix: hands it out, and answers each withheld literal with
/// a continuation, until the body literal is reached. Gives the state then
/// reached and all bytes handed out.
pub open spec fn drive_prefix(s: AppendView) -> (AppendView, Seq<u8>)
    decreases s.prefix.len(),
{
    if s.phase is Prefix {
        let (written, out) = push_step(s);
        let next = after_sending(written);
        if next.phase is MetadataContinuation {
            proof {
                lemma_split_keeps_data(s.prefix);
            }
            let (last, rest) = drive_prefix(continuation_step(next).0);
            (last, out + rest)
        } else {
            (next, out)
        }
    } else {
        (s, Seq::empty())
    }
}

/// The whole prefix goes out in order: driven with a continuation for each
/// withheld literal, it hands out the data of all its fragments, and then
/// waits for the continuation of a synchronizing body literal or is ready
/// for the body of a non-synchronizing one.
pub proof fn lemma_prefix_is_sent_whole(s: AppendView)
    requires
        s.wf(),
        s.phase is Prefix,
    ensures
        drive_prefix(s).1 == opt_data(s.phase->Prefix_0) + fragments_data(s.prefix),
        drive_prefix(s).0 == (AppendView {
            prefix: Seq::empty(),
            phase: if s.spec.mode == LiteralMode::Sync {
                PhaseView::HeaderContinuation
            } else {
                PhaseView::Ready(true)
            },
            ..s
        }),
    decreases s.prefix.len(),
{
    lemma_split_keeps_data(s.prefix);
    let sp = split_prefix(s.prefix);
    let head = opt_data(s.phase->Prefix_0);
    let (written, out) = push_step(s);
    assert(out == head + sp.0);
    let next = after_sending(written);
    match sp.1 {
        Some(data) => {
            let resumed = continuation_step(next).0;
            lemma_prefix_is_sent_whole(resumed);
            assert(drive_prefix(s).1 =~= out + (data + fragments_data(sp.2)));
            assert(opt_data(s.phase->Prefix_0) + fragments_data(s.prefix) =~= head + sp.0 + data
                + fragments_data(sp.2));
        },
        None => {
            assert(fragments_data(sp.2) =~= Seq::<u8>::empty());
            assert(opt_data(s.phase->Prefix_0) + fragments_data(s.prefix) =~= head + sp.0);
        },
    }
}

} // verus!
