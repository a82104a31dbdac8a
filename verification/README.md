# lib_common

The core of an agent that watches feeds, decides which updates matter to
its user, and tunes its own polling, written in Verus: the functions in `src/`
carry contracts that Verus proves. Calls into outside crates stand behind
small trusted wrappers, whose contracts are believed, not proved.

- `src/` — the verified library:
  - `schedule` — schedules, tasks and per-key task queues; which task to
    wait for next, when a rescheduling cancels a wait, the lock file's pid.
  - `update` — the state machine that turns wake-ups into fetched,
    compared and persisted updates.
  - `optimize` — the rules of the optimizer's tools: read before change,
    approval before action, and when the dialog ends.
  - `decision` — judging updates: the truth of an answer, past decisions
    chosen for the model, fetched pages clipped to a range.
  - `template`, `xml` — prompt templates and links of feed items, read from
    `quick_xml` events.
  - `source`, `atom` — feed items as messages for the model; Atom entries as
    RSS items.
  - `chat`, `dialog`, `memory`, `gemma4`, `toolcall`, `text` — messages,
    dialog tags, simple memories, tool answers and string helpers.
- `tests/` — tests run against the compiled library.
- `app/` — the asynchronous side: HTTP feeds, streams, channels, the lock
  file and the dialogs with a model, calling the library for their
  decisions.
