# calyx

The logic of the Calyx engine and editor that does not touch the GPU or the
UI, written in Verus and proved against its contracts.

- `src/` — the verified library:
  - thumbnails: `thumbnail_key`, `thumbnail_pipeline` (queue, statuses,
    retry limit), `thumbnail_laws`, `thumbnail_service` (the worker's state
    machine), `thumbnail_request` (cache names and layout), `readback`
    (row alignment of GPU read-backs), `texture_readback` (the checks a
    texture must pass before read-back), `source_version` (versions of an
    asset's sources over its children and references);
  - assets: `asset_paths` (relative-path names), `asset_registry`
    (metadata, names, sub-assets, hot reload bookkeeping, dependencies),
    `asset_laws`, `json_refs` (asset ids named in JSON documents);
  - materials: `material`, `shader_reflect`, `bind_groups`;
  - `animation`, `list_edit`, `errors` (asset errors, logging), `text`,
    `digest` (SHA-1 based ids and hashes), `table` and `keyed_list`
    (lookup tables with their map views).
- `app/` — the runtime around it: files, clocks, JSON parsing, the `log`
  facade, the thumbnail worker thread, and the float-valued render settings.
- `tests/` — tests of the library on concrete values.
