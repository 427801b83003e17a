# feishu_gateway

The core of a chat gateway adapter for Feishu / Lark, written in Verus: what reaches the bot, what
the bot's answers become, and which requests are let in are stated as contracts and proved.

- `src/` is the verified library.
  - `config`, `event`, `schema`: configuration, incoming events, and the messages that are forwarded.
  - `dedupe`, `rate_limit`, `names`, `token`, `table`, `clock`: the state that is kept over time.
    Each operation exists twice, with an explicit moment (`.._at`) and with the clock read for it.
  - `webhook`, `crypto`: webhook requests, their signatures and encrypted payloads.
  - `ws`: frames of the long connection and the time between connections.
  - `api`, `reply`, `chunk`, `format`: requests to the platform, and the cutting of long texts.
  - `json`, `text`: JSON documents by way of `serde_json`, and strings as sequences of characters.
- `app/` is ordinary Rust around it: HTTP, WebSocket, environment and serialisation.
- `tests/` runs the library with the crates that it calls.

Properties that relate several functions are public proof functions whose names start with `law_`.
What is believed of other crates without proof is marked `#[verifier::external_body]` or
`assume_specification`, with a comment on what is claimed.
