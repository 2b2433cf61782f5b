# arkhe

A verified library for the Arkhe / Cathedral stack, written in Verus.

`src/` holds the logic, each function with a contract that Verus proves:

- `firewall` — the temporal-semantic firewall: circuit breaker, silent
  quarantine and honeypots, safety score and obfuscation checks of intent
  embeddings, and the intent pipeline.
- `creekguard` — covert-channel detection on Creek pub/sub: canary tokens,
  blind fingerprints (SimHash / MinHash) with near-duplicate detection,
  rate limiting by novelty, timing correlation between agents (with the
  single-precision thresholds computed exactly on integers), and the
  message pipeline.
- `arkhe_core` — the semantic core: entities, transitions, the identity and
  caller-supplied hashers, and the integrity constraints IC6, IC8, IC10 and
  IC16, with the laws that transitions keep referential integrity and, under
  fresh hashes, acyclic evidence chains.
- `identity`, `arkheobex` — Ed25519 signatures and attestation headers on
  Arkhe objects.
- `governance`, `nexus`, `api`, `resilience`, `llm_core`, `cognitive`,
  `server` and the smaller modules — governance hooks and actions, header
  authentication, a circuit breaker for outgoing calls, mock model and
  reflection services, and the types the services exchange.
- `assoc`, `text` — association lists read as maps, byte-level search and
  decimal notation.

`app/` holds what stays outside the verified library: the command line,
floating-point statistics (Shannon entropy, chi-square, size classes,
correlation scores), wire formats (serde, bincode), error texts, and the
local clock.

`tests/` exercises the library on concrete values.

The registries of `firewall` and `creekguard` (quarantine, honeypot,
canaries, fingerprints, novelty counters, timestamps) are association
lists: vectors of `(key, value)` pairs whose keys occur once, read as maps
in the contracts. Their keys are byte arrays and texts, and vstd gives
`HashMap` and `BTreeMap` a key model only for integer keys; the timing
engine also walks its agents in identifier order, as an ordered map would.

Not covered by the library:

- the governance guard, its asynchronous variant, the NEXUS adapter and the
  `SafeCoreHook` trait: the governance action, executed-action and
  invariant-checker types they are defined over are not available here
  (the business-hours hook, which needs none of them, is in `governance`);
- the Targon (Bittensor SN4) client and the security-analysis report, for
  the same reason: the Bittensor client types are not available;
- the Plurality memory client trait, an asynchronous HTTP client;
- homomorphic aggregation of ciphertexts, whose encryption library is not
  available; Xaynet aggregation only reports, and does so in `app/`;
- the security-audit orchestrator, whose hunt, validation, report and
  finding-type modules are not available;
- the AEGIS policy evolution, whose decisions compare floating-point
  rates;
- the HTTP side of the PicoAds client (the request's address, credentials
  and body are built in `picoads`) and the axum side of the authentication
  middleware (what it attaches is `api::auth_info_from_headers`).

The `sign` command's output (`cli::sign_output`) is computed in the
library; `app/` reads the payload file and prints.
