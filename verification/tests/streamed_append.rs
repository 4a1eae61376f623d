use imap_next::append::{AppendState, StreamedAppend};
use imap_next::event::{ClientSendEvent, CommandHandle, FinishSendingResult};
use imap_next::fragment::{Fragment, LiteralMode};

fn line(s: &[u8]) -> Fragment {
    Fragment::Line { data: s.to_vec() }
}

fn start(length: u64, binary: bool, mode: LiteralMode, prefix: Vec<Fragment>) -> AppendState {
    let spec = StreamedAppend { length, binary, mode };
    match AppendState::new(CommandHandle(7), spec, Ok(prefix)) {
        Ok(state) => state,
        Err(e) => panic!("unexpected error {}", e),
    }
}

/// Hands out what is due and returns the bytes and the state.
fn push(state: AppendState) -> (AppendState, Vec<u8>) {
    let mut out = Vec::new();
    let state = state.push_to_buffer(&mut out);
    (state, out)
}

fn sent(state: AppendState) -> (AppendState, Option<ClientSendEvent>) {
    match state.finish_sending() {
        FinishSendingResult::Uncompleted { state, event } => (state, event),
        FinishSendingResult::Completed { event } => panic!("completed early with {:?}", event),
    }
}

fn completed(state: AppendState) -> ClientSendEvent {
    match state.finish_sending() {
        FinishSendingResult::Completed { event } => event,
        FinishSendingResult::Uncompleted { event, .. } => panic!("not completed: {:?}", event),
    }
}

const H: CommandHandle = CommandHandle(7);

#[test]
fn synchronous_upload_waits_for_permission_checks_chunks_and_requires_explicit_finish() {
    let mut s = start(131072, false, LiteralMode::Sync, vec![line(b"A APPEND INBOX {131072}\r\n")]);
    assert!(s.set_chunk(vec![1]).is_err());
    let (st, out) = push(s);
    assert_eq!(out, b"A APPEND INBOX {131072}\r\n");
    let (st, event) = sent(st);
    assert_eq!(event, None);
    let (st, out) = push(st);
    assert!(out.is_empty());
    let mut st = st;
    assert!(st.set_chunk(vec![1]).is_err());
    assert!(st.continuation());
    let (mut s, event) = sent(st);
    assert_eq!(event, Some(ClientSendEvent::AppendReady { handle: H }));
    assert_eq!(s.finish(), Err("APPEND has not received the declared number of bytes"));
    assert_eq!(
        s.set_chunk(vec![1; 65537]),
        Err("APPEND chunks must contain 1 through 65536 bytes")
    );
    assert_eq!(s.set_chunk(vec![0]), Err("NUL requires a BINARY APPEND literal"));
    for written in [65536u64, 131072] {
        s.set_chunk(vec![42; 65536]).unwrap();
        assert_eq!(s.set_chunk(vec![1]), Err("APPEND is not ready for a chunk"));
        let (st, out) = push(s);
        assert_eq!(out, vec![42; 65536]);
        let (st, event) = sent(st);
        assert_eq!(event, Some(ClientSendEvent::AppendChunkSent { handle: H, written }));
        s = st;
    }
    assert_eq!(
        s.set_chunk(vec![1]),
        Err("APPEND chunk exceeds the declared remaining length")
    );
    s.finish().unwrap();
    assert_eq!(s.finish(), Err("APPEND is not ready to finish"));
    let (st, out) = push(s);
    assert_eq!(out, b"\r\n");
    assert_eq!(completed(st), ClientSendEvent::AppendSent { handle: H });
}

#[test]
fn nonsync_binary_body_is_ready_at_once() {
    let s = start(1, true, LiteralMode::NonSync, vec![line(b"A APPEND INBOX ~{1+}\r\n")]);
    let (s, out) = push(s);
    assert_eq!(out, b"A APPEND INBOX ~{1+}\r\n");
    let (mut s, event) = sent(s);
    assert_eq!(event, Some(ClientSendEvent::AppendReady { handle: H }));
    s.set_chunk(vec![0]).unwrap();
    let (s, out) = push(s);
    assert_eq!(out, vec![0]);
    let (mut s, event) = sent(s);
    assert_eq!(event, Some(ClientSendEvent::AppendChunkSent { handle: H, written: 1 }));
    s.finish().unwrap();
    let (s, out) = push(s);
    assert_eq!(out, b"\r\n");
    assert_eq!(completed(s), ClientSendEvent::AppendSent { handle: H });
}

#[test]
fn mailbox_literals_and_zero_length_body_have_separate_continuations() {
    let prefix = vec![
        line(b"A APPEND {3}\r\n"),
        Fragment::Literal { data: b"a\nb".to_vec(), mode: LiteralMode::Sync },
        line(b" {0}\r\n"),
    ];
    let s = start(0, false, LiteralMode::Sync, prefix);
    let (s, out) = push(s);
    assert_eq!(out, b"A APPEND {3}\r\n");
    let (s, event) = sent(s);
    assert_eq!(event, None);
    let (mut s, out) = push(s);
    assert!(out.is_empty());
    assert_eq!(s.check_finish(), Err("APPEND is not ready to finish"));
    assert!(s.continuation());
    let (s, out) = push(s);
    assert_eq!(out, b"a\nb {0}\r\n");
    let (mut s, event) = sent(s);
    assert_eq!(event, None);
    assert_eq!(s.finish(), Err("APPEND is not ready to finish"));
    assert!(s.continuation());
    let (mut s, event) = sent(s);
    assert_eq!(event, Some(ClientSendEvent::AppendReady { handle: H }));
    assert_eq!(s.check_finish(), Ok(()));
    s.finish().unwrap();
    let (s, out) = push(s);
    assert_eq!(out, b"\r\n");
    assert_eq!(completed(s), ClientSendEvent::AppendSent { handle: H });
}

#[test]
fn nonsync_literal_in_prefix_is_not_held_back() {
    let prefix = vec![
        line(b"A APPEND {3+}\r\n"),
        Fragment::Literal { data: b"a\nb".to_vec(), mode: LiteralMode::NonSync },
        line(b" {2+}\r\n"),
    ];
    let s = start(2, false, LiteralMode::NonSync, prefix);
    let (s, out) = push(s);
    assert_eq!(out, b"A APPEND {3+}\r\na\nb {2+}\r\n");
    let (_, event) = sent(s);
    assert_eq!(event, Some(ClientSendEvent::AppendReady { handle: H }));
}

#[test]
fn encoding_error_is_returned() {
    let spec = StreamedAppend { length: 1, binary: false, mode: LiteralMode::Sync };
    match AppendState::new(H, spec, Err("bad mailbox")) {
        Err(e) => assert_eq!(e, "bad mailbox"),
        Ok(_) => panic!("expected an error"),
    }
}

#[test]
fn continuation_without_a_waiting_literal_changes_nothing() {
    let mut s = start(1, false, LiteralMode::NonSync, vec![line(b"A APPEND INBOX {1+}\r\n")]);
    assert!(!s.continuation());
    let (mut s, out) = push(s);
    assert_eq!(out, b"A APPEND INBOX {1+}\r\n");
    assert!(!s.continuation());
    let (mut s, event) = sent(s);
    assert_eq!(event, Some(ClientSendEvent::AppendReady { handle: H }));
    assert!(!s.continuation());
    assert_eq!(s.check_chunk(&[5]), Ok(()));
}

#[test]
fn refused_chunk_leaves_the_state_as_it_was() {
    let s = start(3, false, LiteralMode::NonSync, vec![line(b"x")]);
    let (s, _) = push(s);
    let (mut s, _) = sent(s);
    assert_eq!(s.set_chunk(vec![]), Err("APPEND chunks must contain 1 through 65536 bytes"));
    assert_eq!(s.set_chunk(vec![1, 2, 3, 4]), Err("APPEND chunk exceeds the declared remaining length"));
    let (s, out) = push(s);
    assert!(out.is_empty());
    let (mut s, event) = sent(s);
    assert_eq!(event, None);
    s.set_chunk(vec![1, 2, 3]).unwrap();
    let (s, out) = push(s);
    assert_eq!(out, vec![1, 2, 3]);
}

#[test]
fn push_hands_out_once() {
    let s = start(2, false, LiteralMode::NonSync, vec![line(b"A\r\n"), line(b"B\r\n")]);
    let (s, out) = push(s);
    assert_eq!(out, b"A\r\nB\r\n");
    let (s, out) = push(s);
    assert!(out.is_empty());
    let (mut s, _) = sent(s);
    s.set_chunk(vec![9]).unwrap();
    let (s, out) = push(s);
    assert_eq!(out, vec![9]);
    let (s, out) = push(s);
    assert!(out.is_empty());
    let (_, event) = sent(s);
    assert_eq!(event, Some(ClientSendEvent::AppendChunkSent { handle: H, written: 1 }));
}

#[test]
fn body_adds_up_and_finish_needs_the_declared_length() {
    let s = start(5, false, LiteralMode::NonSync, vec![line(b"P")]);
    let (s, _) = push(s);
    let (mut s, _) = sent(s);
    let mut total = 0u64;
    for chunk in [vec![1u8, 2], vec![3], vec![4, 5]] {
        assert!(s.check_finish().is_err());
        total += chunk.len() as u64;
        s.set_chunk(chunk).unwrap();
        let (st, _) = push(s);
        let (st, event) = sent(st);
        assert_eq!(event, Some(ClientSendEvent::AppendChunkSent { handle: H, written: total }));
        s = st;
    }
    assert_eq!(total, 5);
    assert_eq!(s.check_finish(), Ok(()));
}

#[test]
fn zero_length_nonsync_body_can_finish_right_away() {
    let s = start(0, false, LiteralMode::NonSync, vec![line(b"A APPEND INBOX {0+}\r\n")]);
    let (s, _) = push(s);
    let (mut s, event) = sent(s);
    assert_eq!(event, Some(ClientSendEvent::AppendReady { handle: H }));
    assert_eq!(s.check_chunk(&[1]), Err("APPEND chunk exceeds the declared remaining length"));
    s.finish().unwrap();
    let (s, out) = push(s);
    assert_eq!(out, b"\r\n");
    assert_eq!(completed(s), ClientSendEvent::AppendSent { handle: H });
}

#[test]
fn finished_command_keeps_reporting_completion() {
    let s = start(0, false, LiteralMode::NonSync, vec![]);
    let (s, out) = push(s);
    assert!(out.is_empty());
    let (mut s, _) = sent(s);
    s.finish().unwrap();
    let (s, _) = push(s);
    let (s, out) = push(s);
    assert!(out.is_empty());
    assert_eq!(completed(s), ClientSendEvent::AppendSent { handle: H });
}

#[test]
fn completion_needs_explicit_finish() {
    let s = start(1, false, LiteralMode::NonSync, vec![line(b"A APPEND INBOX {1+}\r\n")]);
    let (s, _) = push(s);
    let (mut s, _) = sent(s);
    s.set_chunk(vec![b'x']).unwrap();
    let (s, _) = push(s);
    let (s, event) = sent(s);
    assert_eq!(event, Some(ClientSendEvent::AppendChunkSent { handle: H, written: 1 }));
    let (s, out) = push(s);
    assert!(out.is_empty());
    let (s, event) = sent(s);
    assert_eq!(event, None);
    let (mut s, event) = sent(s);
    assert_eq!(event, None);
    s.finish().unwrap();
    let (s, out) = push(s);
    assert_eq!(out, b"\r\n");
    assert_eq!(completed(s), ClientSendEvent::AppendSent { handle: H });
}

#[test]
fn nothing_leaves_without_continuation() {
    let prefix = vec![
        line(b"A APPEND {3}\r\n"),
        Fragment::Literal { data: b"a\nb".to_vec(), mode: LiteralMode::Sync },
        line(b" {2}\r\n"),
    ];
    let mut s = start(2, false, LiteralMode::Sync, prefix);
    let mut all = Vec::new();
    let mut events = Vec::new();
    for _ in 0..3 {
        assert!(s.set_chunk(vec![1]).is_err());
        assert!(s.finish().is_err());
        s = s.push_to_buffer(&mut all);
        let (st, event) = sent(s);
        events.extend(event);
        s = st;
    }
    assert_eq!(all, b"A APPEND {3}\r\n");
    assert!(events.is_empty());
}

#[test]
fn complete_run_sends_prefix_chunks_and_crlf_and_reports_ready_once() {
    let prefix = vec![
        line(b"A APPEND {3}\r\n"),
        Fragment::Literal { data: b"a\nb".to_vec(), mode: LiteralMode::Sync },
        line(b" {3}\r\n"),
    ];
    let mut s = start(3, false, LiteralMode::Sync, prefix);
    let mut all = Vec::new();
    let mut events = Vec::new();
    let mut chunks = vec![vec![b'y'], vec![b'x', b'z']];
    loop {
        s = s.push_to_buffer(&mut all);
        match s.finish_sending() {
            FinishSendingResult::Completed { event } => {
                events.push(event);
                break;
            }
            FinishSendingResult::Uncompleted { state, event } => {
                s = state;
                events.extend(event);
            }
        }
        if !s.continuation() {
            if let Some(chunk) = chunks.pop() {
                if s.set_chunk(chunk.clone()).is_err() {
                    chunks.push(chunk);
                }
            } else {
                s.finish().unwrap();
            }
        }
    }
    assert_eq!(all, b"A APPEND {3}\r\na\nb {3}\r\nxzy\r\n");
    assert_eq!(
        events,
        vec![
            ClientSendEvent::AppendReady { handle: H },
            ClientSendEvent::AppendChunkSent { handle: H, written: 2 },
            ClientSendEvent::AppendChunkSent { handle: H, written: 3 },
            ClientSendEvent::AppendSent { handle: H },
        ]
    );
}

#[test]
fn getters_give_handle_and_parameters() {
    let s = start(4, true, LiteralMode::NonSync, vec![]);
    assert_eq!(s.handle(), H);
    assert_eq!(s.spec(), StreamedAppend { length: 4, binary: true, mode: LiteralMode::NonSync });
}
