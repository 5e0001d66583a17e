# dynamo_llm

The request and response logic of an LLM frontend, verified with Verus: chat
completion and Anthropic message types, request validation, tool choice and guided
decoding, the jail that holds tool calls back until they are parsed, the
aggregation of a response stream, and the health of a worker and its endpoints.

- `src/` is the library. Every function states in its contract what it returns or
  changes, over the contents of its arguments (`deep_view`); what holds of several
  functions together stands in the `*_laws` modules and beside the functions, as
  proof functions whose names begin with `law_`.
- `tests/` runs the library on concrete values.
- `app/` is ordinary Rust around the library: streams, metrics, health check tasks,
  the environment, and the wire format.

## Questions and answers

The tool-call parsers, and comparisons of floating-point numbers, are outside of the
library. A function that needs such an answer takes the answers that are known. Where
one is missing it changes nothing and returns the question; the caller finds the
answer, adds it, and calls again. See `parser_facts` and `traffic`.

## Modules

| Subject | Modules |
| --- | --- |
| Texts, JSON, identifiers | `text`, `copy`, `json`, `json_order`, `json_text`, `name_map`, `ids` |
| Chat completions | `chat_types`, `request_types`, `chat_request`, `validate`, `reasoning` |
| Tools and guided decoding | `tools`, `freeform`, `tool_laws` |
| Anthropic messages | `anthropic_types`, `anthropic_json`, `anthropic`, `anthropic_response` |
| Aggregation | `aggregator`, `aggregate_laws` |
| The jail | `parser_facts`, `jail_types`, `jail_builder`, `jail_text`, `jail_parse`, `jail_state`, `jail_stream`, `jail_apply`, `jail_laws`, `jail_call_laws` |
| The `poolside_v1` markup | `poolside`, `poolside_laws`, `poolside_args`, `poolside_given`, `poolside_stream` |
| Finish reasons | `finish_reason`, `finish_laws` |
| Health | `system_health`, `traffic`, `health_check` |
| Metrics | `capture_metrics` |
