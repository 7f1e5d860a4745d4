# ai-protect

An inline proxy for directory services. It recognizes the account-affecting
requests of a client (locks, unlocks, deletions, creations, renames, password
resets), asks a chain of policies about each of them, and forwards or refuses
it. Everything else passes through untouched.

The decisions are a verified library; sockets, files and signals are an
ordinary program around it.

- `src/connector/`: the wire protocol. `ber` frames messages, `message` reads
  and writes them, `ldap` recognizes actions, claims of identities and upgrade
  requests.
- `src/engine/`: what is independent of a protocol. Identities, actions, the
  policy chain and the blast-radius rule with its history and stores, audit
  records, metrics, probes, TLS settings, balancing over upstreams.
- `src/proxy/`: what a connection does with a frame, and the life of a
  listener.
- `src/builder.rs`, `src/config.rs`, `src/process.rs`: how a proxy is put
  together and a process is run.
- `app/`: the program.

Public proof functions state what holds across functions: in
`src/engine/policy/budget.rs`, for example, that a window's budget is not
exceeded, after a restart either, unless an identity with live events had to be
forgotten; in `src/engine/policy/trace.rs` that a blocked action leaves no
trace in later decisions; and in `src/proxy/mod.rs` that a connection only ever
acts under its address or under a name that the directory has confirmed.
