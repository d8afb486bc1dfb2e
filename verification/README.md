# engine_assets

The asset pipeline of a game engine, verified with Verus.

- `src/` is the verified library:
  - `paths`, `text`: file-system paths held as components (file name, extension, push,
    pop) and the text comparisons the pipeline makes.
  - `uuid_text`, `shared`, `loader`: where the artifact of an imported asset lies (kind
    folder, shard folder, `name_uuid` file) and how meta files become assets to load.
  - `asset_database`: the texture slots of the asset database.
  - `importer`, `serializers`: which files of the assets folder are sources, which
    sources are models, and which models still need importing.
  - `scene`: flattening of an imported node hierarchy into a list that refers to parents
    by position.
  - `meshes`, `materials`, `meshlets`, `components`: index buffers, the plan of which
    materials and meshes to prepare, material blending, vertex-cache ordering and meshlet
    generation.
- `app/` holds the engine side: directory walks, file reading and parsing, the ECS
  resources and systems, the scene reader, and the floating-point vertex, material and
  transform data.
- `tests/` runs the library on concrete values.
