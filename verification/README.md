# Node support library

A Verus-verified library with three parts:

- `monitoring`: the node's event counters and its active-miners gauge, held in
  a `Metrics` value; each `increment_*` function moves exactly one counter.
- `net`: the asynchronous DNS service. `DNSResolver` queues requests (never
  more than its limit), answers some host names from fixed addresses and asks
  for system lookups of the rest; `DNSClient` tracks queued lookups by host and
  port, takes in responses, times lookups out and hands each answer out once.
  `resolver_next` decides each step of the resolver thread's loop.
  `net::table` is the host-and-port map both use; `net::channel` holds the
  trusted calls into `std::sync::mpsc`.
- `vm`: the interpreter's nested lexical contexts (bounded nesting, lookup
  through enclosing scopes) and its call stack.

`app/` holds what stays outside verification: the process-wide metrics
registry, the wall clock, the system resolver, and the resolver thread, which performs
the steps that `resolver_next` chooses.
