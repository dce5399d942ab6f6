# ip_registry

A whitelist of client addresses whose entries expire, and the decisions of the web service around
it. Clients register their address under a secret path; the registry keeps it on the whitelist for
a while. Every other request goes to a decoy site through a reverse proxy.

The library under `src/` is verified with Verus:

- `registry`, `table`, `heap`: the registry, its table of expiry times and its queue of expiries
- `handlers`: how requests to register and to clear are answered, step by step
- `proxy`, `headers`, `host`: what the reverse proxy sends on and sends back
- `reply`, `html`: the answers that the service gives of its own
- `persist`, `config`, `clock`: steps of a write, configuration, time
- `laws`: what holds of all of it together

`app/` is the service itself: it listens, reads and writes files, parses addresses, and carries out
what the library decides.
