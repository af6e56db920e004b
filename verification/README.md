# llmtrim

The logic of a local proxy that compresses requests to language models, written in Verus: the functions
of `src/` state what they do, and Verus proves it. Where an outside crate, the clock or a database has
its say, they state what is asked and what is made of the answer.

- `src/codex`: requests for a Responses backend, and the reduction of its event stream.
- `src/provider`: where the text of a request stands, and the shortening of tool descriptions.
- `src/setup`, `src/autostart.rs`: how the proxy is wired into a system and taken out again.
- `src/tracking`: the ledger of savings.
- `src/gateway.rs`: the request filter of a gateway.
- `src/json.rs`, `src/pointer.rs`, `src/text.rs`: what the others are stated over.

The public proof functions whose names begin with `law_` state what holds across functions: that a
turn ends once, that how a stream is cut makes no difference, that everything is wired to one port,
that login starts one interceptor or none. Those of the ledger speak of a model of its rows, and of a
database that does what it is asked.

What is believed without proof is marked `#[verifier::external_body]` or `assume_specification`, and
its doc comment names the outside function: the JSON reader and writer of `serde_json`, the sentence
and word boundaries of `unicode-segmentation`, the clock and the dates of `chrono`, the connection of
`rusqlite`, and of the standard library the three character classes `is_alphanumeric`, `is_lowercase`
and `is_uppercase`, `String::push` and the comparison of two `str`.

`app/` performs what `src/` decides: files, the environment, the registry, sockets, and the host of
the gateway filter.
