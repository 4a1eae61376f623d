# imap_next (streamed APPEND sending)

A verified state machine for sending one streamed IMAP `APPEND` command.

- `src/fragment.rs`: encoded command fragments (`Fragment`, `LiteralMode`).
- `src/event.rs`: `CommandHandle`, `ClientSendEvent`, `FinishSendingResult`.
- `src/append.rs`: `AppendState`, its mathematical view `AppendView`, the
  transition functions that the operations' contracts are stated over, and
  the invariant `AppendView::wf`.
- `src/laws.rs`: proof functions for properties that span a few operations.
- `src/runs.rs`: whole runs of operations (`Op`, `run`), the invariant that
  every run from a new state keeps (`consistent`), and the laws over runs.
- `app/`: the DEFLATE transport (`Compressed`) over tokio and
  async-compression, and the conversion of imap-codec's encoder fragments
  into the library's.

`AppendState::new` takes the encoded command prefix as an argument: the
encoder for a streamed `APPEND` prefix (`StreamedAppend::encode_prefix`)
exists only in a patched imap-codec, not in any released version, so the
library cannot call it.
