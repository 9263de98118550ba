# ai_agents

The verified core of an AI-agent framework, written in Verus.

## src/: the library, every function verified

- `text`, `json`, `json_path`: strings as character sequences, the JSON
  value model and its views, dot-path lookups.
- `chat`, `provider`, `registry`, `budget`: chat messages and responses,
  provider settings and errors, the LLM registry, token and cost budgets.
- `google`, `google_request`, `google_response`, `google_stream`,
  `google_exchange`: the Gemini API: request bodies and generation
  settings, response and function-call parsing, the server-sent event
  stream, and the flushing of tool exchanges into `contents`.
- `facts`, `facts_config`, `fact_prompt`, `memory_checks`: fact
  deduplication (normalization, Levenshtein distance), fact prompts and
  memory checks.
- `hitl_config`, `hitl`, `approval_fixtures`: human-in-the-loop approval
  settings, multi-language messages, message plans and scripted approvals.
- `eval`, `eval_report`, `metrics`, `evidence`, `fixtures`, `fixture_llm`,
  `mock_llm`, `assertion`, `tool_checks`: the evaluation runner's
  decisions: suite validation, scenario selection, retries, turn outcomes,
  stream folding, assertions and their detail records, metrics, JUnit
  reports, fixtures and scripted LLMs.

Each public function states its result exactly over spec functions and
views; laws that span functions (`law_*`) are proved as proof functions.
Outside crates (serde_json, sha2, uuid) and a few std calls are reached
through small trusted wrappers whose contracts say what their sources
show.

## app/: what Verus does not see

File and network I/O, serde and YAML parsing of the configuration files
into the library's types, the loops that run attempts, turns and streams
(each step decided by the library), the LLM judge, the clauses that compare
floating-point numbers, and the report files.
