# theseus

The launcher library's decision logic, written in Verus and proved against its
contracts: caching rules, install-job state and progress checkpoints, modpack install planning
(manifest, overrides, install paths) and CurseForge handling, matching fetched values
back to cache keys, dedicated-server control, log sharing and analysis streaming,
OAuth redirect replies, linked-launcher version documents (discovery, and the merging of their `inheritsFrom`
chains by the generic, HMCL and PCL rules over a verified JSON model) and instance upgrades (what an upgrade applies or
skips, and how its backup keeps its content records).

Layout:

- `src/` — the verified library. Each module states its behaviour as `requires` /
  `ensures` over spec functions and views; `law_*` proof functions state properties
  that span several calls. Calls into `serde_json`, `url` and `base64` go through small
  trusted wrappers whose contracts are documented beside them.
- `tests/` — tests of the library on concrete values.
- `app/` — the input and output around the library (files, sockets, streams), and the
  one computation on floating point.
