# greenlight

The verified core of a Greenlight node: the staging of hsmd requests for
remote signing devices, the routing of hsmd requests, the dispatch of the
signer proxy, the planning of peer reconnections, the handling of the
signature headers of client calls, and the pure steps of scheduler
registration, node configuration and request authorization.

- `src/` is the library, verified with Verus. Each module states its
  contracts over mathematical models (`Seq`, `Map`) of the messages it
  handles, and proves the laws the components are meant to keep (for
  instance that answering a staged request hands back exactly the
  requester that staged it, or that the reconnection plan is sorted,
  duplicate-free and unique).
- `app/` holds the runtime around it: channels and locks, the
  environment, the file system, and the sled-backed signer state store.
- `tests/` exercises the library on concrete values.
