# astrid-capsule-openai-compat

The OpenAI-compatible LLM provider for Astrid OS, with its logic verified in Verus.

`src/` is the verified library: discovering and advertising models, building Chat
Completions requests, cutting a streamed response into payloads, and turning parsed
chunks into stream events. `src/laws.rs` states what holds of the library as a
whole. `app/` is the capsule around it: settings, HTTP and the event bus.

| Setting | Default | Description |
|---|---|---|
| `api_key` | none | Provider API key, sent as `Authorization: Bearer ...` |
| `base_url` | `https://api.openai.com` | Provider origin without `/v1` |
| `model` | `gpt-5.4` | Default model; a request may name another |
| `context_window` | `128000` | Context window (tokens) advertised to the registry |
| `max_output_tokens` | `8192` | Advertised, and sent as `max_tokens` on each request |
| `temperature` | unset | Default sampling temperature |
