# des

The network layer of a discrete event simulator, as a library verified with
Verus: every function in `src/` carries a contract that Verus proves.

## Layout

- `src/path.rs`, `src/common/path.rs`: object paths of modules, gates,
  subsystems and channels; parsing, parents and children.
- `src/common/par.rs`, `src/par/`: parameter stores. Dotted keys with `*`
  wildcards form a tree; readers hold entries, writers do not overwrite held
  ones. `src/par/yaml.rs` reads parameters from YAML text.
- `src/channel/`: links. A delaying link, a busy/free link that drops or
  queues, and a data-rate limited link; the time a message takes comes in
  nanoseconds from the caller.
- `src/message/`: how payloads are measured (`MessageBody`), bodies and
  extensions that hold values of any type.
- `src/packet.rs`: TCP/UDP-like packets and their builder.
- `src/hooks.rs`: hook handles and the priority order hooks run in.
- `src/module/`, `src/gate.rs`, `src/ndl.rs`: module identifiers, panic
  behaviour, metadata, gate kinds and network description parts.
- `src/keyed.rs`, `src/strs.rs`, `src/time.rs`: a string-keyed map,
  character-level string functions, simulated time.

Maps keyed by strings (the entries of a parameter node) and by value type
(message extensions) are vectors with distinct keys rather than hash or
ordered maps: vstd's `HashMap` and `BTreeMap` specifications hold only for
key types that obey its key model, which a `String` or a `TypeId` cannot be
shown to do without an assumption, and the order in which a hash map is
walked is not fixed anyway.

`app/` holds what needs floating point or randomness, or writes to an
output: link timing, and writing parameters out.

Laws that span several functions are public proof functions whose names
start with `law_`.
