# goose context accounting

A verified library for the parts of the goose agent that assemble its
system prompt and account for the tokens of a request.

- `src/text.rs`: text utilities (previews, tag sanitising, trimming,
  joining) with their specifications.
- `src/message.rs`: the conversation model and the text by which each kind
  of message content is counted.
- `src/token_counter.rs`: token counting with the o200k_base tokenizer, a
  least-recently-used cache of counts, and the accounting of tool
  definitions, messages and chat requests; every count is the
  tokenizer's whenever the cache holds no colliding count for the texts
  counted, and the laws of the tool count (additivity, order and
  trailing periods).
- `src/budgets.rs`: checks that the byte budgets bounding the counts fit
  in a `usize`.
- `src/tool_groups.rs`: grouping tools by owner, and why regrouping keeps
  their sums.
- `src/prompt_context.rs`: the JSON context that the system prompt template
  is rendered with (strings written by serde_json, whose escaping the
  library states), the built-in template `SYSTEM_PROMPT_TEMPLATE`, and the
  rendering, done by minijinja in a fresh environment.
- `src/extras_map.rs`: the insertion-ordered map of additional
  instructions.
- `src/prompt_manager.rs`: the prompt manager and the system prompt
  builder.
- `src/context_report.rs`: the context report: the turn placeholder and
  turn context, the segments of the system prompt's parts, and the report
  assembled from all segments.
- `src/report_messages.rs`: the message segments of the report.
- `src/report_tools.rs`: the tool segments of the report, and the parts for
  hint files and for tools described in the prompt.
- `src/model_config.rs`: the rules for model settings read from the
  configuration, and the decisions of a completion with its one fallback
  to the main model.
- `app/lib.rs`: conversions from rmcp, serde_yaml and serde_json values,
  the floating-point temperature setting, the completion loop that awaits
  the provider, and the serialisable form of the context report.
