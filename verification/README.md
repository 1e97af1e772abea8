# bevy_replicon_visible_sets

Entity visibility for `bevy_replicon` servers, with potentially visible sets.
Entities are related to containers; observers look into containers; clients
see through observers. A client is shown the replicated entities that are
always visible or held by a container that one of its observers looks at.

## Layout

- `src/` is the library, verified with Verus. Entities are named by the `u64`
  that `Entity::to_bits` gives for them.
  - `entity_set.rs`: set operations on entity identifiers.
  - `container.rs`: containers, and the refresh of an observer's cache from the
    containers it looks at.
  - `observer.rs`: observers, and the refresh of a client's cache from the
    observers it sees through.
  - `client_visibility.rs`: the filter bit this crate owns in `bevy_replicon`'s
    per-client visibility, and the trusted call that sets it.
  - `lib.rs`: clients, the steps that show or hide entities for a client, and
    the properties that keep a client's view exact across those steps.
  - `visibility_mask.rs`: visibility layers.
- `tests/`: tests of the library, and the plugin's scenarios played on a model
  of the server's world.
- `app/`: the Bevy plugin, its components and systems, which read the ECS world
  and call the library.
