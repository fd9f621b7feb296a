# mcpg-cloud

Tenant CLI for mcpg.cloud, the managed MCP Gateway service, with its
decision-making core proved correct in Verus.

- `src/` — the verified library (`mcpg_cloud`):
  - `coords` — org / workspace / environment resolution (flag, then the
    stored `use` context, else an error naming every source);
  - `api` — the control-plane call each command makes (method, URL, error
    label, success notice);
  - `deploy` — publish arguments and bodies, the size ladder, the newest
    version a redeploy re-publishes, service-token requests;
  - `diff` — the LCS line diff between config versions, with its laws
    (nothing lost, longest common subsequence kept, minimality, identical
    texts are all context);
  - `names` — resolving a published name to an instance uid;
  - `target` — telling instance uids from names;
  - `sse` — framing of the live log stream, with the law that chunking does
    not change what is rendered;
  - `report` — the text every command prints;
  - `text` — character-level helpers (lines, decimal numbers, padding).
- `app/` — the binary: argument parsing, HTTP, files and the terminal.
- `tests/` — tests of the library.
