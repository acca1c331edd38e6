# aruaru-search

A self-hosted meta-search service that needs no API keys: it asks several public search pages at once,
reads their results, merges them into one list, and answers in JSON.

The logic is a library verified with [Verus](https://github.com/verus-lang/verus); the program around it
does the input and output.

| Where | What |
|---|---|
| `src/engine.rs`, `src/web.rs` | the engines, their search URLs, and the reading of their result pages |
| `src/lang.rs`, `src/languages.rs` | languages, regions, and pages in the script of a language |
| `src/search.rs` | merging results: which pages there are, who voted for them, in what order they are shown |
| `src/searcher.rs` | the state of the service: pauses and rests, what came of each search, kept results |
| `src/maintain.rs`, `src/round.rs` | looking after the engines, with proposals of an AI that are never taken unproven |
| `src/limit.rs`, `src/request.rs` | who may search how often, and what calls ask for |
| `src/archive.rs`, `src/store.rs` | keeping settings and history in a git repository or a database |
| `src/text.rs`, `src/json.rs`, `src/double.rs` | what the others are written with |
| `app/` | the program: network, files, processes, and the arithmetic of scores |
| `tests/` | examples of all of it |

Each module ends with its laws: proof functions whose names begin with `law_`.

Floating-point numbers do not occur in the library. Weights and scores pass through it as the bits of
IEEE 754 doubles, which it stores and compares; the factor for the script of a page is in tenths.

Environment: `ARUARU_SEARCH_BIND` (`127.0.0.1:4610`), `ARUARU_SEARCH_DATA_DIR` (`data`), `ARUARU_LLM_URL`
(`http://127.0.0.1:4600`), `ARUARU_SEARCH_RERANK` (`off` to switch the order by meaning off),
`ARUARU_SEARCH_ADMIN_TOKEN`, `ARUARU_SEARCH_RATE_PER_MIN` (20), `ARUARU_SEARCH_RATE_PER_DAY` (1000),
`ARUARU_SEARCH_LOCAL_UNLIMITED` (`0` to limit calls from the same machine too), `ARUARU_SEARCH_DB_DSN`,
`ARUARU_SEARCH_ARCHIVE_REPO`.
