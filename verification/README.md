# pocket_relay_plugin

A Verus-verified core for the Pocket Relay client plugin, a DLL that the game
loads in place of `binkw32.dll`.

- `src/` is the verified library:
  - `pattern`: byte patterns with `?` wildcards, the search for the first
    match in a snapshot of the game's code, and memory patches.
  - `hooks`: the game's patterns, the patch planned where each one is found
    (host name lookups, certificate check, downloadable content, console),
    and the fake host entry answered for the redirector's host.
  - `qos`: the QoS reply, the public address cache, and the address lookup
    as a state machine (services in order, then the local address).
  - `upgrade`: the URL and headers of the request that upgrades the main
    connection into a pipe to the server.
  - `plugin`: which directory entries are loaded as ASI plugins.
  - `text`: white space, dotted-decimal IPv4 addresses, decimal numbers.
- `app/` is the DLL around it: Windows calls, memory writes, the proxy table,
  the tokio servers and the HTTP requests.
- `tests/` runs the library on concrete inputs.
