# chia_query

Reads of the Chia blockchain over a pool of untrusted peers, with a fallback to the coinset.org
HTTP API. The decisions are verified with [Verus](https://github.com/verus-lang/verus); dialling,
sending, waiting and serialising are ordinary Rust around them.

All hashes and byte strings that callers see are `0x`-prefixed hex.

## Layout

- `src/` — the verified library. What a function returns or changes is stated in its contract, and
  what the functions promise together in public proof functions named `law_*`. A method that
  implements a trait has its contract from the trait. The reads that a light client is given to work
  with (`CoinStateFetcher`) promise nothing, and what is built on them holds whatever they answer.
  - `peer/` — the pool of peers: who is dialled and admitted (`connect`, `ordering`, `selection`,
    `plurality`), who is picked and dropped (`pool`, `peaks`), what sessions publish (`frames`),
    what a peer's reply means (`reads`, `walk`, `translate`, `puzzle`, `bundle`, `block`) and what
    it is worth once others have been asked (`corroboration`, `set_agreement`, `backend`).
  - `peer/light_client/` — a client that follows one session: its cache, its anchor, its drive loop
    and the chain source it offers.
  - `coinset/` — what to ask coinset and what its answers mean.
  - `router` — which source answers, and how an answer that one source vouches for is settled.
  - `drift`, `drift_monitor` — changes in the shape of what coinset answers.
  - `clvm`, `wire`, `protocol`, `hexadecimal` — the boundary to the Chia crates. What is taken on
    trust there is stated in the doc comment of the function that makes the call.
- `tests/` — the library, seen from outside.
- `app/` — the networked client: TLS, sockets, HTTP, JSON and the tasks that drive the library.

## What is promised

- A corroborated read reports an answer as established only if at least two independent peers,
  besides the one that was asked, say the same, or coinset does. A peer is independent if it was
  discovered, not preferred, and is heard once. One contradiction outranks any amount of agreement,
  and silence is not agreement.
- Sets are compared at a height that every source has settled, and filtered only afterwards.
- A peer that fails a read is dropped, and the next attempt goes to another one.
- A read that could not be completed is an error and never an absence.
- Neither a single announcement nor a peer that the operator prefers moves the peak that others
  are held to.
