# codex-chat-bridge

A bridge between two protocols: a client that speaks the Responses API talks to an
upstream that speaks Chat Completions. A request to `/v1/responses` is converted to a
Chat Completions request, and the answer, whole or streamed, is converted back.
`/v1/chat/completions` is relayed as it is.

The library in `src/` holds everything that is decided or converted on the way, with
contracts that Verus proves. The program in `app/` holds the rest: the HTTP routes, the
exchanges with upstream, the clock, the environment and the metrics.

## The library

| Module | What it holds |
|--------|---------------|
| `service` | serving one request: preparing it, answering it, keeping the turn |
| `convert` | Responses to Chat Completions and back |
| `context` | the tools of a request, their Chat names and the way back to them |
| `stream_chat_to_responses` | a Chat stream, from its bytes to Responses events |
| `stream_responses_state` and the other `stream_*` | the state of a streamed response |
| `decoder`, `sse`, `json` | UTF-8 in pieces, server-sent events, documents |
| `compat`, `upstream` | what is changed when upstream rejects a request, and when to stop |
| `session_store`, `session_bridge`, `reasoning_cache` | turns that can be continued |
| `media`, `reasoning`, `sanitize` | URLs that may be fetched, think blocks, clean text |
| `config`, `error`, `middleware`, `metrics`, `types` | settings, errors, and request rules |

A type of the library has a mathematical model, which its `view` gives; the contracts
speak of the models. What the library promises as a whole stands beside the functions as
public proof functions: that the pieces in which a stream arrives make no difference
(unless carriage returns stand in a row), that a kept turn can be continued, that retries
come to an end.

Documents are read and written by `serde_json`, think tags are matched by `regex-lite`,
and random ids come from `uuid`. What the library believes of these crates is stated at
the functions that call them.

## The program

| Method and path | Purpose |
|-----------------|---------|
| `GET /health` | that the bridge lives, and whether upstream answered at the start |
| `GET /metrics` | metrics in the Prometheus text format |
| `GET /v1/models` | the models of upstream |
| `POST /v1/responses` | a response, whole or streamed |
| `POST /v1/responses/compact` | the same |
| `POST /v1/chat/completions` | the relay |

| Variable | Default | Purpose |
|----------|---------|---------|
| `BRIDGE_UPSTREAM_BASE_URL` | (required) | where upstream is |
| `BRIDGE_UPSTREAM_API_KEY` | empty | the key for upstream |
| `BRIDGE_UPSTREAM_TIMEOUT_SECONDS` | `60` | time to connect, and between two pieces |
| `BRIDGE_UPSTREAM_STREAMING` | `true` | whether to ask upstream for streams |
| `BRIDGE_UPSTREAM_MAX_RETRIES` | `2` | how often to send a request again |
| `BRIDGE_MAX_CONCURRENT_REQUESTS` | `20` | requests to the model at a time |
| `BRIDGE_QUEUE_TIMEOUT_SECONDS` | `10` | how long a request waits for its turn |
| `BRIDGE_MAX_BODY_BYTES` | `10485760` | the largest request body |
| `BRIDGE_UNSUPPORTED_TOOL_POLICY` | `ignore` | `ignore`, `reject`, `error` or `passthrough` |
| `BRIDGE_INBOUND_API_KEYS` | empty | keys of clients; with none, all are let in |
| `BRIDGE_HOST`, `BRIDGE_PORT` | `0.0.0.0`, `18090` | where to listen |
