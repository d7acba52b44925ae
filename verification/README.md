# dynamo_llm

The protocol layer of an LLM serving stack, verified with [Verus](https://github.com/verus-lang/verus).
An engine speaks chat completions; clients speak the Responses API, the Messages API or chat
completions. The library turns what the engine says into what each client expects, reads the
parts of requests that need rules of their own, and keeps the requests of a session on one
worker.

## Layout

- `src/chat`, `src/chat_request`, `src/completion`: chat and text completions.
- `src/responses`: the Responses API. `stream` says what each chunk does to the stream,
  `stream_converter` does it, `convert` turns complete replies. `stream_laws`, `stream_order`,
  `stream_output`, `stream_run` and `stream_items` hold the laws: indices are distinct, events
  can be read in order and are numbered without a gap, a stream ends once, and the output is at
  any time what was streamed. `tools` resolves namespaced tools and finds calls that a model
  wrote as text, `spec_fields` completes response objects.
- `src/anthropic`: the Messages API, in the same shape, with `stream_content` for what the
  blocks carry, `stream_run` for whole streams, and with the content blocks (`blocks`,
  `request`) and token estimates (`count`) of requests.
- `src/session_affinity`: `state` is the model, `coordinator` the code, `laws` what holds of
  any sequence of operations; `entries` is the map that holds the sessions.
- `src/baseten_ext`, `src/extensions`, `src/request_flags`: extensions and flags of requests.
- `src/json`, `src/text`, `src/text_map`, `src/number`, `src/ids`, `src/clock`: what the rest
  is built on, and most of what is taken on trust from other crates.
- `app`: ordinary Rust around the library: JSON on the wire, server-sent events, tasks and
  locks.

What is not proved stands behind functions marked `external_body` and declarations marked
`assume_specification` or `external_type_specification`; the comment above each says what is
claimed of which function.
