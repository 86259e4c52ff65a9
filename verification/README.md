# NimbusDNS

A DNS server with encrypted upstreams, ad blocking, a DHCP server, a query log and a web panel. What
the server decides and computes is a library that [Verus](https://github.com/verus-lang/verus) proves
to keep its contracts; the program around it moves bytes between that library and the network, the
disk and the clock.

## Layout

- `src/` is the library.
  - `dns/`: messages, cache, rate limit, routing of queries, replies, frames, and the ways to the
    upstream servers (plain and over TLS)
  - `blocking/`: allow, deny and block lists, patterns and wildcards, hosts files
  - `dhcp/`: address pool, leases, the exchange of messages, what is kept on disk
  - `auth/`: passwords, sessions, the limit on attempts, which requests need a session
  - `api/`: bodies and parameters of requests, JSON values and patches of the configuration
  - `database/`: statements for SQLite, migrations, batches of queries
  - `config.rs`, `over_time.rs`, `oui.rs`, `web.rs`, `process.rs`: configuration, counts over time,
    makers of network devices, files of the web panel, the process
  - `text.rs`, `address.rs`, `clock.rs`, `tables.rs`: what the others are built from
- `tests/` runs the library with the crates that it uses.
- `app/` is the program: sockets, files, databases, TLS and HTTP.

## Contracts

Every function states its result over mathematical models: texts are sequences of characters,
tables are maps, times are numbers. What holds across several operations is stated and proved in
functions whose names start with `law_`, for example that

- a blocked query is answered here, with the address that the mode says, and never forwarded;
- an answer that was forwarded is served from the cache until its time is over, and never longer
  than any of its records lives;
- a response over TLS comes back to the query that it answers, under the identifier of that query;
- no address is leased to two clients at a time, whatever messages arrive;
- a session that is over opens nothing, and a password that was hashed is accepted again;
- a patch of the settings never changes the password hash, whatever its body is.

Calls into other crates (DNS and DHCP messages, hash tables for many threads, regular expressions,
password hashes, the clock) stand behind small functions whose contracts say what is relied on.
