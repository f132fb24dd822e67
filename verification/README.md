# phi_kernel_tools

Kernel tools for an LLM agent — file reading, writing, listing and precise
editing, shell command output shaping, background task bookkeeping, context
rotation (activity ledger, archived history, private notes), skill listing
and skill details, and sub-agent replies — with their behaviour stated as
Verus contracts and proved.

Layout:

- `src/` — the verified library. Every decision and every reply text of the
  tools is computed here; each public function states its result exactly over
  spec functions (`text.rs` holds the shared text model: characters, lines,
  trimming, decimal rendering, ordering). Outside calls (serde_json lookups,
  UUID generation, `Instant`, `CancellationToken`, `to_lowercase`, `{:?}`
  quoting, `String::push`) sit behind small trusted wrappers whose contracts
  name or bound their results.
- `tests/` — scenario tests on concrete values.
- `app/` — the `agent_base::Tool` implementations: argument parsing, file
  system and process I/O, shared registries with change notification, and
  the JSON forms of replies. It hands plain values to the library and sends
  back what the library computes.
