# bdredis

A small replicated key-value server: a master that takes writes, keeps an
append-only file and sends every write to its slaves; slaves that serve
reads; a proxy that routes reads by key hash, sends writes to the master
and runs `MULTI`/`WATCH`/`EXEC` transactions; and a command-line client.

`src/` is the verified library: the table, the record formats of
the append-only file and of replication, the request handlers of every
node, the transaction state of the proxy and the client's command
handling, each with its contract, and the laws that tie them together
(replication, recovery from the file, transaction order and watches).

`app/` wires the library to the network (volo RPC), the file system and
the console.
