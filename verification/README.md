# pub_sub_pipeline

An in-process pub/sub hub and async pipeline toolkit, verified with Verus.

- `src/` is the verified library:
  - `bus`: the topic registry (`EventBus`), one Tokio broadcast channel per
    topic. Each channel carries a ghost account, kept by the wrappers that
    send, subscribe and receive on it: the messages it accepted, where each
    subscription the bus holds stands in them, how many receivers were
    handed out, every message offered to `send`, and how many messages it
    retains. The bus's view maps each topic to its channel's account.
    A subscriber handed out by `subscribe` carries its topic, its channel's
    ghost identity and its position in that channel's messages; delivery,
    order, late subscription and lag are proved for it (`receive_from`) and
    for the subscriptions the bus holds (`subscribe_held` / `receive`). Once
    its Tokio receiver is taken out (`into_receiver`) to be awaited, what it
    receives is no longer tracked.
  - `pipeline`: the state machine that decides each step of a map, broadcast
    or merge stage, the settling of merge joins, and the bounded collector.
  - `scenarios`: the fan-out drill (with its exact report), the
    line-squaring filter, and the demo's broadcast sample and report.
  - `text`: whitespace trimming, `i32` parsing and decimal rendering.
  - `error`, `art`: error types and the command line's help copy.
- `app/` is the `pubsub` binary: argument parsing, tracing, stdin/stdout and
  the async tasks that drive the library's stage machines.
- `tests/` exercises the library from outside.
