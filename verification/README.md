# tp

A distributed store system: e-commerce clients send orders to local store nodes, which
reserve stock locally, ask the other nodes for the rest, and commit or cancel the
resulting transactions.

- `src/` is the verified library (Verus): order and command parsing, the purchase
  protocol's texts, the stock arithmetic, the store actor's state machine, the
  decisions of the listeners and of the node-to-node protocol, and the framing of
  messages on a connection. Each public function states what it returns or changes;
  the laws that span functions (round trips of the texts, what a cancellation gives
  back of a request, the listener's single listening phase) are public proof functions.
- `app/` runs the system: argument handling, sockets, actors and the event loops that
  perform the actions the library decides.
- `tests/` runs the library on concrete values.
