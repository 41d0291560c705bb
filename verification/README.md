# Nostra

The core of a desktop chat client, written in Rust and verified with Verus.

- `src/llm` is the gateway to language models: provider profiles, the encoding of requests, the two
  streaming protocols (Chat Completions and Responses), server-sent events, retries, the assembly of
  answers, and metrics.
- `src/chat` is a conversation: its transcript, and the list of rows that shows it.
- `src/error_card.rs` prepares what a provider answered for display when a turn failed.
- `src/logging` is the diagnostic log: its records, its batches and the rotation of its files.
- `src/text.rs`, `src/json.rs`, `src/ordered.rs` and `src/deep.rs` are what the rest is built on.
- `tests` runs the library.
- `app` is the program around it: files, threads, timers, the network, the window, and arithmetic on
  pixels.

Every type `T` that holds text or lists has a mathematical model `TModel`, which contracts speak of
through `deep_view`. What a module does is stated by spec functions on these models, and what holds
of it as a whole by public proof functions, most of them in modules named `laws`, `order` and `runs`.

JSON text is read and written by `serde_json`, URLs are taken apart by `url`, and the time comes
from `chrono`. The few functions that call them are marked and say what is taken for granted.
