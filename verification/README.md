# phys_rs

The verified core of an N-body physics sandbox, written in Verus.

`src/` holds the logic whose behaviour does not depend on floating-point
arithmetic, each function with a contract that Verus proves:

- `icosphere`: index buffer and midpoint list of the subdivided icosahedron
  used to draw bodies (one midpoint per edge, shared by neighbouring faces);
- `icosphere_mesh`: the subdivided sphere stays a closed surface (each edge in
  exactly two triangles, walked in opposite directions) with `10 * 4^n + 2`
  vertices;
- `octree_shape`, `octree`: the shape of the Barnes-Hut octree built from the
  bodies' octant paths, and the octant numbering;
- `coordinates`: the integer sector grid of the hierarchical coordinates;
- `stellar`: collapse of late-stage stars into neutron stars and black holes;
- `console`, `names`: the developer console and the name order it relies on;
- `diagnostics`: per-system timings kept sorted by name;
- `clock`, `input`, `render`, `gpu`, `components`: the tick counter, key and
  mouse bindings, render-pass bookkeeping, GPU dispatch sizes and marker types.

`app/` is a headless driver that adds the floating-point halves (vertex
positions, forces, mass thresholds, position normalisation) and reads console
commands from standard input. `tests/` exercises the library on concrete
values.
