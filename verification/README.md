# herdr_client

The logic of the Herdr TUI client that can be stated and proved, in Verus:

- `history`: Back/Forward history of pane visits across endpoints.
- `frontend_api`, `connection`: what the client answers on its frontend socket,
  request by request and line by line.
- `shell`, `observation`: the snapshot published on that socket, and the
  fingerprint that decides when to publish it.
- `sidebar`, `sidebar_tokens`, `sidebar_rules`: the sidebar configuration.
- `endpoint`, `json`, `keyed`, `text`: identities of endpoints, JSON values,
  entries ordered by key, text.

Each public function states in `ensures` what it returns or changes. Laws that
relate several functions are the public proof functions named `law_*`.

`app/` is the ordinary Rust around it: the Unix socket, reply channels, and the
serialized forms of requests and configuration.
