# wowsunpack

A library that reads model and space files of World of Warships and prepares ships,
models and textures for export. Its behaviour is stated in contracts and proved with
Verus.

- `src/models` reads `.skel_ext` files, forests, terrain, merged models and spaces, and
  holds the prototypes of `assets.bin` that exports need.
- `src/export` plans exports: which ship a name means, where its components stand, which
  textures a material has, how textures are converted, and what manifests say.
- `src/game_params` names the keys of the game parameters.
- `src/capabilities.rs` describes a build of the tool.
- `src/arith.rs` and `src/single.rs` compute with single-precision numbers by their bit
  patterns, so that positions and colours are exact.
- `app` opens and writes files around the library.
- `tests` runs the library on concrete values.

Single-precision numbers are carried as `u32` bit patterns throughout. Images are decoded
and encoded by `image_dds`, XML is read by `roxmltree`, and names are folded to ASCII by
`unidecode`; the functions that call them say what is relied upon.
