# codex_relay

A verified library that translates between the Responses API and the Chat
Completions API, in the way a relay between the two needs it: requests one way,
responses the other, tool declarations flattened and found again, blank messages
left out, and payloads normalized for strict endpoints.

Every function of the library states what it returns over a mathematical model,
and [Verus](https://github.com/verus-lang/verus) proves it.

## Layout

- `src/json.rs` — JSON values, their model, and reading and writing them
- `src/text.rs` — text helpers
- `src/types.rs` — the messages and envelopes of the two protocols
- `src/env.rs` — the settings that come from the environment
- `src/tools.rs` — Responses tools to Chat Completions tools
- `src/tool_names.rs` — flat tool names and the way back from them
- `src/calls.rs` — tool call arguments, and the checks on upstream calls
- `src/content.rs` — message content, and messages without any
- `src/items.rs` — input items for strict endpoints
- `src/session.rs` — the reasoning that earlier turns left behind
- `src/conversation.rs` — the conversation that input items make
- `src/conversation_laws.rs` — what holds of every conversation
- `src/request.rs` — Responses request to Chat Completions request
- `src/response.rs` — Chat Completions response to Responses response
- `src/schema.rs` — removing `$ref` nodes from schemas
- `src/ids.rs` — names made of hashes and random numbers
- `src/native.rs` — payloads for strict Responses endpoints
- `app/` — the environment, the wire types and the provider quirks around it
- `tests/` — tests

## What is trusted

The outside crates are called in a few small functions that Verus does not look
into; each states what it takes from the crate: `serde_json` (reading, writing
and holding JSON values), `uuid` (random identifiers), and of the standard
library the hash and the `Debug` text of a string.
