# kirino

Access control with proofs: roles, permissions, sessions, constraints, audit, risk-based
authorization, and the accounts and checks around a login. The library is written in Rust and
verified with Verus. Every executable function carries a contract, its own or that of the trait
method it implements, with these exceptions: the private calls of the clock and of the source of
identifiers, of whose results nothing is promised, and the trait methods by which a host reads a
subject from its identifier. The properties that span several functions are stated as `law_*` proof
functions beside them.

## Layout

- `src/` is the verified library.
  - `collections`, `order`, `score`, `text`, `time`, `ids`, `base64url`, `error`: tables and sets by
    identity, stable descending order, numbers as IEEE 754 bits, texts, moments, identifiers,
    unpadded base64url, and errors.
  - `rbac/`: the traits of permissions, roles, subjects and stores; registries and stores in memory;
    the role hierarchy; the decision engine and its cache; scoped grants; workspaces; password
    policy; sessions in memory and as rows of a database.
  - `rbac/constraints/`: separation of duty, cardinality, prerequisites and time windows.
  - `rbac/audit/`: entries and conditions, the sink, rules and cooldowns, the analyzer, the logger.
  - `rbac/dynamic/`: task domains, trust, behaviour, policy, and the arbiter that decides by risk.
  - `service/login/`: form of names and passwords, rate limits, accounts, the built-in roles.
  - `service/verify/`: addresses and networks, authenticator challenges, text messages.
- `tests/` runs the library on concrete values.
- `app/` is ordinary Rust around it: locks, clocks, background tasks, logs, serialised forms, and
  the floating-point arithmetic that the library leaves to its host.

## What is taken on trust

The library calls the clock and the calendar of `chrono`, the identifiers of `uuid`, the random
bytes of `rand`, and a few text functions of the standard library. Each call stands in one small
function whose contract says what is believed of it. Stores, hashing and tokens belong to the host;
the traits that it implements say what is expected of them.

Numbers that are weighed, such as risk and trust, are compared in the library and computed by the
host: a number is carried as its bits, and the functions that need one computed take the
computation as an argument.
