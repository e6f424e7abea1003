# trainpool

Peers pool their RAM for training: leased blocks of bytes are placed on the
node that has room for them, moved away when that node comes under pressure,
and carried between nodes over TCP or over a reliable protocol on UDP. Every
node can lead; the one with the most physical memory does.

`src/` is the library. It holds every decision of a node, each with a contract
that Verus proves. It does no I/O, but that it looks at the clock (`now_ms`) and
draws random ids, of which nothing can be promised: time, what the system says
of itself and what came over the network are arguments, and what is to be sent
is a result.

* `memory`: accounting of promised RAM, the local store, the table of blocks,
  migration.
* `runtime`: the state of a node and what follows each request, datagram and
  tick.
* `transport`: authentication, the datagrams of the UDP protocol, its sender and
  its receiver.
* `cluster`, `node`, `scheduler`: membership, election, discovery, capabilities,
  placement and planning.
* `protocol`, `config`, `cli`, `launcher`, `jobs`, `metrics`: requests, settings,
  what the command line asks and shows, and the books.
* `bytes`, `text`, `double`, `digest`, `ids`, `address`, `map`, `table`: small
  parts. Floating-point numbers are carried as bits and never computed with.

Functions whose names begin with `law_` state what holds of several of them
together. BLAKE3, HMAC-SHA256, hexadecimal text and UUIDs come from the crates
of those names, behind wrappers in `digest` and `ids` whose contracts are not
proved; nor are those of the few functions of `std` that are named in `text` and
in `lib.rs`.

`app/` is the program around the library: sockets, files, processes, JSON, and
arithmetic on floating-point numbers. `tests/` runs the library, with nodes that
talk to each other in one process.
