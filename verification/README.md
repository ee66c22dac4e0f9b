# glb_decimate

Edge-collapse decimation of triangle meshes stored as binary glTF (GLB),
with its integer core verified in Verus.

- `src/` — the verified library:
  - `decode`: little-endian readers for the glTF index component types, and
    readers for index lists and for the raw words of vertex attributes.
  - `glb`, `buffer_view`: accessor and buffer-view records, splitting a GLB
    file into its chunks, and writing one back.
  - `records`: the buffer-view and accessor records and the attribute slots
    read from the parsed JSON document.
  - `unpack`: filing accessors by role and reading the index list and the
    attributes of the first mesh primitive.
  - `mesh`: the edges and faces recorded at each vertex, and the candidate
    pairs given by the connectivity.
  - `collapse`: what one edge collapse does to the vertex records, the index
    list, the liveness table and the queued pairs.
  - `decimate`: the integer state of a decimation run (index list, alive
    vertices, vertex records, candidate queue, goal) and its collapse step.
  - `repack`: the order and offsets of the output buffer sections and the
    renumbered, re-encoded index list.
  - `component`: typed accessor components and the glTF type tables.
- `app/` — the command-line program: file I/O, the JSON edits, and the floating-point
  geometry (positions, error quadrics, the costs of the queued pairs and the
  choice of the cheapest).
- `tests/` — tests of the library on concrete meshes and buffers.
