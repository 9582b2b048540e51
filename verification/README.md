# miru

A local MCP server that gives language models read access to Grafana Loki logs
and Prometheus metrics. The library decides what to ask, reads the answers and
puts them into text; every item of it is verified with Verus. The program around
it reads the configuration, sends the requests and speaks MCP over stdio.

## Layout

| Place | What it holds |
|-------|---------------|
| `src/config.rs` | the configuration: sections, defaults, validity |
| `src/backend.rs` | credentials, requests, what a reply means, the search for a backend |
| `src/loki/` | LogQL, log requests, log lines |
| `src/prometheus/` | metric requests, steps, selectors, summaries |
| `src/server.rs` | the tools: from arguments to requests, from results to text |
| `src/text.rs`, `src/number.rs`, `src/map.rs`, `src/time.rs` | text, decimal numbers, an ordered map, instants |
| `tests/` | the tests of the library |
| `app/` | the program: files, environment, HTTP, JSON, TOML, floating point, MCP |

## What is trusted

Calls into `chrono`, `serde_json` and three functions of the standard library go
through small functions whose contracts are believed: the wrappers in
`src/time.rs`, `src/server.rs` and `src/text.rs`. Each says in its comment which
function it calls and what it claims of it.

The numbers of a series reach the library as the bits of their binary64 form,
with the text that is shown for them; comparing them is verified, rounding and
averaging them is not.
