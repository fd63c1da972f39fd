# ppanel_sdk

Verified core of the PPanel plugin SDK. Plugins are WASM modules that call
the host through `env.*` imports; every call is a protobuf request answered
by a protobuf reply.

- `src/` — the library, verified with Verus:
  - `wire.rs`: varint and key encodings as byte sequences, the calls into
    `prost::encoding`, and the decoding loop of a message.
  - `proto.rs`: the messages of package `ppanel.plugin.v1`, their encoders,
    and decoders for the replies, with round-trip proofs.
  - `abi.rs`: packing of guest memory regions into one `i64`.
  - `host/`: the request and the reading of the reply of every host function,
    synchronous and asynchronous, and the futures' poll decisions.
  - `runtime.rs`, `runtime/sys.rs`: the pending-task count, the event loop's
    decisions, and the async submit / resolve / wait calls.
  - `entry.rs`: export names of the entry points, attribute checks, and the
    replies of an entry point that cannot run its function.
  - `inbound.rs`: the requests that the host sends to the entry points, and
    their decoders, nested messages and maps included.
- `app/` — the plugin-facing shell: guest memory, host imports, the loop over
  `std::future::Future`, message types that hold `prost_types` values, and
  the code generators of the entry-point attributes.
- `tests/` — tests of the library.

Field numbers of the messages follow the order in which each message lists
its fields.
