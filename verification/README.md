# sl_viewer_world_api

The state a Second Life viewer's world layer reads and its features own —
the object graph, the avatar bookkeeping, the build tool's selection, the
derender list, RLV's viewer-side state, terrain revisions, world-scoped
stores, schedule ordering checks, and the tab widget's decisions — as a
library whose behaviour is stated in `requires` / `ensures` contracts and
proved by Verus.

- `src/` is the verified library. Every public function carries a contract
  over a mathematical model of its inputs (views as `Seq`, `Set`, `Map`);
  the laws that relate several operations are public proof functions named
  `law_*`. Identities are plain values: a UUID is its `u128`, an entity its
  `u64` handle, a region-scoped object id a circuit and a local id.
- `tests/` exercises the library on concrete values.
- `app/` is the engine side: the Bevy components, resources, systems and
  plugins that hold the library's types, convert the session's wire types
  into plain values, hand the library's entity lists to `Commands`, and keep
  the floating-point geometry (camera, motion, trackball, ray casts, pixel
  layout) that the library does not model.

The outside calls the library makes — `String::push`, `str::to_lowercase`
and `uuid::Uuid::try_parse` — sit behind small trusted wrappers in
`src/text.rs`, each with a doc comment saying what its contract claims.
