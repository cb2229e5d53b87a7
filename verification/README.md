# frona_server channels

The messaging-channel core of a self-hosted AI assistant server, as a
library verified with Verus: how replies are split and rendered for each
provider (Discord, Telegram, WhatsApp, Signal, SMS), how inbound replies and
button callbacks resolve pending human-in-the-loop requests, how deliveries
are retried, how channels pair with their owner, the chat command registry
and the per-chat session table, which tools and MCP servers a chat session
gets, which outbound events lead to a send, and the provider-specific
parsing of ids, webhooks and errors.

- `src/` is the verified library. Calls into outside crates (markdown
  parsers, HMAC, base64, hex, URL handling, random numbers) sit behind small
  trusted wrappers whose contracts state or name what the call returns.
- `tests/` exercises the library with the real outside crates linked.
- `app/` is the unverified glue: serde forms of the library's enums,
  provider JSON payloads, configuration parsing and the conversions around
  webhook requests.
