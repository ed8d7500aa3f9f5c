# vnet

A virtual network node: IPv4 forwarding with longest-prefix routing, RIP
distance-vector routing between routers, and a TCP stack (handshake, send
and receive buffers, retransmission with an RFC 6298 timer, teardown) on
hosts. Links between nodes are UDP sockets on the local machine.

## Layout

- `src/` is the library, written in Verus. Each public function states what
  it returns or changes in `requires` / `ensures`, and the properties that
  relate several operations (round trips of the wire formats, the TCP
  handshake and teardown, what a forwarding table resolves, that RIP updates
  leave every advertised route with a cost) stand as proof functions beside them.
  - `bytes`, `net`, `table`: byte order, address prefixes, small keyed tables.
  - `routing`, `rip`, `daemon`: forwarding tables, RIP messages and updates,
    the IP daemons of hosts and routers.
  - `ipv4`, `tcp`, `interfaces`, `ip_handler`: headers and packets (through
    `etherparse`), interfaces, protocol dispatch.
  - `buffers`, `circ`, `retransmission`, `conn_socket`, `conn_handlers`,
    `conn_ops`, `sockets`, `backend`: the TCP connection state machine and
    the socket table.
  - `config`, `node`, `text`, `repl`: start-up from a configuration, the
    plain IP node, command parsing.
- `tests/` runs the library on concrete values.
- `app/` is the program around it: the configuration file, UDP sockets,
  the prompt, the clock, file reading and writing, and printing. It runs the
  loops that wait (for a datagram, a typed line, room in a send buffer, data
  to read); each step of those loops (forwarding, RIP, the TCP handshake and
  timers, sending a file in chunks, command handling) is a call into the
  library.

## Running

```
vnet --config node.lnx            # host or router with TCP sockets
vnet --config node.lnx --ip-only  # plain IP node
```
