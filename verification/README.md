# Nextmini dataplane

A dataplane node of an emulated network. A controller tells each node its neighbors, routes, multicast
groups and flows; the node forwards packets accordingly, runs TCP flows in user space, and reports what
it sees.

The decisions of a node are a library in Verus. Every function of it states in `requires` and `ensures`
what it needs and what it returns, and the statements are proved. What needs sockets, devices, processes
or floating point is a program around the library.

## Layout

- `src/` is the library.
  - `messages`, `net`, `text`, `lines`, `numbering`: messages, addresses, text and numbered lookup.
  - `node`: a node. `node::controller` answers the controller, keeps statistics of flows and books of
    probes; `node::flow` runs TCP flows in user space; `node::local` puts segments back in order before
    they reach applications; `node::namespace` brings up nodes in network namespaces;
    `node::integration_test` takes part in transfers.
  - `dataplane`: a smaller core with packets in fixed buffers, routes by direction, and FIFO queues.
  - `actors`: where an actor sends what it receives.
- `tests/` runs the library.
- `app/` is the program: settings, the connection to the controller, links to other nodes, TUN devices,
  the TCP stack, probes and namespaces.

## Reading the proofs

Most types have a view that says what they stand for, such as `Topology` for what a node has heard from
the controller or `Routing` for a routing table, and a `wf` that their methods keep. Contracts relate
views before and after a call. What holds over several calls is stated by the public proof functions
whose names begin with `law_`.

Calls into other crates go through small functions marked `external_body`. The comment above each says
what is claimed of the call without proof.
