# ubgp

A BGP-4 speaker: the wire format of the BGP messages, the per-neighbor
finite state machine, and the routing information base with best path
selection, written in Verus and proved against its contracts.

- `src/` is the verified library. `wire`, `types`, `net`, `nlri`,
  `attributes`, `capabilities`, `messages` and `codec` hold the wire format
  and its laws (what is written is read back). The multiprotocol path
  attributes carry their values as RFC 4760 lays them out (family, next
  hop, a reserved octet, prefixes), while `Mpnlri` and `Mpunlri` on their
  own are written with a leading length octet. `rib`, `route_order`,
  `manager`, `events` and `fib` hold the routing tables and best path
  selection (RFC 4271 9.1.2.2: highest local preference, shortest AS_PATH,
  lowest origin, lowest MED, eBGP before iBGP, lowest router identifier,
  lowest peer address); `session`, `fsm`, `handler`, `connection`, `config`
  and `speaker` hold the neighbor sessions.
- A RIB is a vector of entries in which no prefix occurs twice, not a hash
  map keyed by prefix: a map keyed by a struct of the library lets Verus
  prove nothing of its contents, while a vector with that invariant lets
  every lookup, insertion and removal be stated and proved.
- `app/` is the daemon `ubgpd` around the library: configuration file,
  TCP connections, timers, and the kernel routing table through netlink.
  It offers no gRPC management interface and has no command line client.
- `tests/` exercises the library on concrete values.
