# vinrouge_web

The decision logic of the VinRouge audit workbench, verified with Verus.
The workbench turns a standard operating procedure into an audit plan, asks
for the data each control needs, maps uploaded columns to those requests,
generates test scripts in a small DSL, repairs them against the imported
tables, and reports the findings.

## Layout

- `src/` — the verified library. Every public function states its result
  in `ensures` over spec functions; laws that relate several functions are
  public proof functions named `law_*`.
  - `text`, `unicode`, `seqs`, `order`, `json`: characters, case mapping,
    sequences, string order and a JSON value model.
  - `chunking`, `keywords`, `prompts`, `plan_prompt`, `requests`, `plans`,
    `summary`: the texts sent to the language model, the request loop, and
    the merging of plan sections.
  - `pbc`, `mapping`, `files`, `projects`, `setup`, `sections`: data
    requests, column mapping, uploads, projects and the audit setup.
  - `dsl_syntax`, `repair`, `table_match`, `script_fix`, `generation`:
    normalising and repairing generated scripts.
  - `review`, `grid`, `results`, `findings`, `charts`, `distribution`,
    `status`, `assistant`: the review, data grid and result screens.
- `tests/` — tests of the library on concrete values.
- `app/` — the browser front end (Leptos), the desktop IPC and the calls to
  the language model and the analysis engine, around the library.

## Trusted items

Case mapping and character classes come from std (`str::to_lowercase`,
`str::to_uppercase`, `char::is_alphanumeric`), `String::push`, and
`serde_json::to_string` for the data window and the column-mapping request
(string lists and the data-request context); each is a wrapper in `src/`
whose contract is stated in its doc comment.
