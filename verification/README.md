# lr_router

The routing core of a poll-driven BGP, OSPF and Babel router, verified with
Verus.

- `src/router.rs` holds the router's state and its mathematical view. The
  modules below it hold one pipeline each: import, selection, export, restart,
  peers, sessions, origination, the OSPF plane and the intake of what
  neighbours send. `engine` works the agenda off, `order` states what holds at
  all times and `flows` what several steps come to.
- `src/ospf/` plans what a router does to its link-state databases, derives its
  route table and tells the changes of a database that alter the topology.
- `src/babel.rs` interprets Babel frames.
- The other modules are values: addresses, routes, ordered maps, lists.

The router never blocks and owns no sockets. A request changes its state and
leaves tasks on its agenda. `DefaultRouter::pending` shows the next task,
`DefaultRouter::step` performs it; tasks that need a peer's state machine, a
hook, a codec or a database are performed by the embedder, which hands back an
`Answer`. `app/` is such an embedder.

Every function states the router's state after the call as a function of the
state before it.
