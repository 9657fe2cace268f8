# mq-http

An HTTP server that answers each request by running an [mq](https://mqlang.org/) script, with its
rules proved in [Verus](https://github.com/verus-lang/verus).

- `src/` is the verified library: what a script sees of a request, what its value means as a
  reply, who may pass and how often, and the OpenAPI document that the comments of a script
  describe.
- `app/` is the server around it: the command line, sockets, files, the running of scripts,
  tracing.
- `tests/` runs the library.

| Module | What it holds |
| --- | --- |
| `text`, `number`, `json` | characters, doubles by their bits, JSON values |
| `value`, `body`, `request` | script values, parsed bodies, the value of a request |
| `reply`, `response` | replies, and the reply to a script value |
| `engine`, `handler` | engines, and the steps from a request to its reply |
| `rate_limit`, `auth`, `middleware`, `cors` | who may pass |
| `annotation`, `nesting`, `syntax`, `route`, `openapi` | the OpenAPI document of a script |
| `cli`, `state`, `watch` | settings, what is held while running, reloading |

Proof functions whose names begin with `law_` state what holds of the library as a whole. Calls
into other crates stand in small functions marked `external_body`; their doc comments say what is
taken for granted of them.
