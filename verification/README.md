# luau_behavior

Verified core of a Bevy plugin pair: scripted (Luau) entity behaviours with
hot reload, and struct-of-arrays simulation of large archetypes.

* `src/` — the library, verified with Verus:
  * `behavior.rs`: registry of loaded scripts, compiled-form identities, hot
    reload events and the per-instance reload decision, with its laws.
  * `dod.rs`: struct-of-arrays byte storage for positions and velocities.
  * `dod_store.rs`: which archetypes are simulated and the storage kept for
    them from frame to frame.
  * `events.rs`: the queue that the script API fills and the engine drains.
* `app/` — the engine side: Bevy plugins and systems, the Lua runtime,
  file watching, and the floating-point movement step.
* `tests/` — tests of the library.
