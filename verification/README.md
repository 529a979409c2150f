# transaction

Persistent type layouts for a transactional runtime, and executable models of the runtime that
works on the objects they describe. Everything under `src/` is verified with Verus.

- `type_layout`, `layout_record`, `layout_codec`: layouts of structs, arrays and scalar
  references, and the records that stand for them in storage. Records correspond one to one to
  the layouts that can be stored.
- `registry`, `registry_codec`: layouts by id and by fingerprint, and how a registry is stored.
- `wasmtime_layout`, `layout_fingerprint`: the layouts of compiled types.
- `visibility`: which version of a value a transaction sees.
- `lock_model`, `lock_check`, `lock_schedule`, `lock_run`: a model of granule locks, and how runs
  of real locks are held against it.
- `permission_model`, `granule_holdings`: the permissions of a transaction.
- `mixed_model`, `mixed_recovery`: one transaction that writes memory and objects, before and
  after recovery.
- `object_model`, `object_rebuild`: which versions of objects come back from a log.
- `object_graph`, `recovery_samples`, `recovered_winner`, `tx_log`, `module_metadata`: the pieces
  that runs are made of.
- `values`, `le_bytes`, `ordered`, `text`, `layout_error`: what the rest is built on.

`app/` drives a runtime through the models; a runtime implements the traits there. `tests/` holds
the tests.
