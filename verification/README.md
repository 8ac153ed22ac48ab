# typed-eventbus

Transport-agnostic event streaming with typed events and metadata
envelopes, in-process pub/sub, and NATS (core and JetStream) transports.

The project has two parts.

- `src/` is the library, verified with Verus: the envelope (`Uuid`,
  `Identifier`, `EventMetaData`, `Event<T>`), the subscription registry of
  the in-process bus (`LocalEventStream`, including the removal of
  subscribers that are gone), and the naming and delivery rules
  of the NATS transports (durable consumer names, stream and consumer
  settings, durable-name collision checks, ack decisions). Each public
  function states its result in its contract, and the `law_*` proof
  functions state what holds across calls, such as exact subject matching
  on the in-process bus.
- `app/` is the asynchronous shell around it: the `EventStream` transport
  interface, the tokio queues of the in-process bus, the NATS connections and
  subscription loops, the typed `Subscriber`/`Publish` helpers, and the JSON
  wire form of events.

`tests/` runs the library on concrete values.
