# tiny_mq

A replicated message queue on a Raft log, with its logic verified by Verus.

- `src/` is the verified library: in-memory raft and kv engines (`engine`), the
  storage of a peer (`peer_storage`), the apply state machine (`apply`), the
  proposals and bookkeeping of a peer (`proposal`, `peer`), command batching
  (`batch`), log collection (`raftlog_gc`), reading the queue
  (`message_queue`), the transport queues (`raft_client`), the services'
  decisions (`service`, `raftkv`), bootstrapping (`bootstrap`), ticks
  (`store`), the gateway in front of the cluster (`gateway`), batched
  persistence (`persist`), small utilities (`tikv_util`, `thread_group`,
  `util`), the text of messages (`text`), and properties spanning several
  of them (`laws`).
- `tests/` runs the library on concrete values.
- `app/` is the process around it: configuration from the environment,
  thread-local state, and the loops that wait on time or other threads.
