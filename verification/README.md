# airouter-proxy

A small reverse proxy for OpenAI-compatible HTTP APIs. It renames and patches top-level fields of
JSON request bodies, filters headers in both directions, and can limit how many requests are
upstream at once.

`src/` is the library, verified with Verus:

- `text`: numbers and pieces of text;
- `json`: JSON objects, read at their top level only;
- `rewrite`: renaming and patching the fields of a request body;
- `headers`: which headers pass to the upstream and back;
- `config`: `config.json`, the environment, and what makes a configuration valid;
- `proxy`: the request that goes out, and the steps of a request from its arrival to its end;
- `startup`: the lines printed at the start.

`app/` is the server: it reads files and the environment, waits, sends and streams. `tests/` runs
the library with the crates it calls.

## Configuration

`config.json` in the working directory, every field optional:

| field | variable | meaning |
|---|---|---|
| `upstream` | `UPSTREAM` | address of the upstream; one of the two must be set |
| `port` | `PORT` | port to listen on, 8080 by default |
| `api_key` | `API_KEY` | sent as `Authorization: Bearer ...` where a client sends no `Authorization` |
| `concurrency` | `CONCURRENCY` | how many requests may be upstream at once |
| `queue_timeout` | `QUEUE_TIMEOUT` | seconds to wait for a slot, 30 by default |
| `rename` | | object: old field name to new field name |
| `patch` | | object: field to value; `null` removes the field |

Variables override the file. `--debug` logs requests on stderr.
