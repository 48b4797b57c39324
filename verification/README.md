# Network sensor

Finds out which sockets a network interface and a process use and how much traffic goes through
them: captured packets are read down to the transport layer, the socket tables of `/proc/net` are
matched with the interface's addresses, and the traffic of a process's sockets is added up.

- `src/` is the library, verified with Verus. Each module states its contracts over mathematical
  views of its types, and what holds across functions as proof functions whose names start with
  `law_`.
- `app/` reads the system (interfaces, socket tables, file descriptors, capture devices) and hands
  plain values to the library.
- `tests/` runs the library on concrete values.
