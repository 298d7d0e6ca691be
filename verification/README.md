# parachains_router

The message router of a relay chain, written and verified in Verus.

Paras send messages up to the relay chain. The router decides whether a candidate may send its
messages, appends what an accepted candidate sent to the queue of its para, spends a bounded amount
of weight on dispatching what waits, para by para in turns, and forgets everything about a para that
leaves when a new session starts.

- `src/` is the library. `router` holds the storage of the router and its operations, each with a
  contract over `router::state::RouterState`, the storage as a mathematical value.
  `router::dispatch` describes a round of dispatching. `laws` states and proves what the operations
  keep and how they relate to each other.
- `app/` puts the library onto the storage of a chain: it reads what an operation works on, calls
  the library, and writes the outcome back.
- `tests/` runs the library on examples.

The library relies on two functions of other crates, whose contracts are stated and not proved:
`RuntimeDbWeight::reads_writes` of `frame_support`, in `weights`, and `Input::read_byte` of
`parity_scale_codec`, in `xcm`.

No message format has been settled on yet, so `xcm::Xcm` has no values: no message decodes, and
dispatching a message uses up no weight. The loop of a round is verified for any outcome of messages,
and the laws of a round hold for any cost of them.
