# lwip

A verified core for a family of lwIP network stacks that run side by side in one
process, together with the code that runs them.

`src/` is the library. It holds every decision as a function over plain values, with
a contract that Verus proves:

- `mutex`, `lock_stats`: the lock that serializes all entries into one stack, as the
  transitions of its word, and its diagnostics.
- `packet`: packets, and the pools that recycle their storage.
- `shard`, `pbuf_pool`, `output`: the state of each stack, its buffer pool and its way
  out.
- `stack`, `stack_impl`: how a stack is set up, what goes into it and what comes out.
- `tcp_stream_context`, `tcp_stream_impl`, `tcp_accounts`: TCP streams, the callbacks of
  the stack, the queue of writers that wait for shared memory, and the books that tie
  the telemetry to what the streams hold.
- `udp`: datagrams, which go out whole or not at all, and sends that wait for room.
- `channel`: the bounded queues of tokio that the above use.
- `addr`, `counter`, `err`, `error`, `io`, `text`: plain values.

The proof functions whose names begin with `law_` state what holds across
operations: that the lock excludes and strands no thread, that received bytes and
datagrams arrive once and in order, that frames leave whole and in order, that every
chain of buffers goes back once, that freed memory reaches the longest-parked writer,
that stacks leave each other alone, and the like.

`app/` runs the library: it calls the C stacks, performs the lock's transitions on
shared words, reads the environment, and offers the asynchronous interfaces.

`tests/` exercises the library from outside, with the queues of tokio and
crossbeam linked.
