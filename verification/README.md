# chemengine

The core of a small game and simulation engine, written in Verus: the
functions in `src/` are verified against `requires`/`ensures` contracts,
the calls into `std` (type identifiers, the clock) go through a few
trusted wrappers whose contracts say what `std` documents, and the laws
the engine relies on are stated and proved as proof functions beside the
code they speak of.

## Layout

- `src/` — the verified library.
  - `entity`, `sparse_set`, `type_id`: generational entity handles, the
    sparse set, and opaque component type identifiers.
  - `ecs`: archetype storage, columns, the world (spawn, despawn, insert
    and remove components, queries), resources, events and the staged
    schedule.
  - `render`: the render graph (passes, resource dependencies,
    topological compilation with conflict detection, execution), the
    indirect draw list, and the frame-index bookkeeping of the temporal
    upscaler.
  - `application`: the app, plugins, the frame clock and the
    fixed-timestep accumulator.
  - `scene`, `chemistry`, `physics`, `interaction`, `window`, `ai`,
    `compute`: the exact parts of those subsystems — scene hierarchy and
    names, the periodic table, the standard reactions and reaction
    matching, the broad-phase cell grid, social distance rules, input
    state, and plain data types.
- `tests/` — tests of the library.
- `app/` — ordinary Rust around the library: the floating-point
  subsystems (transforms, cameras, rigid bodies, NPC emotion models),
  `Duration` and `f32` views of the clocks, the measured quantities of
  the elements and reactions, and the GPU passes and compute backend on
  `wgpu`.
