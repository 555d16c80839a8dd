# Block Byte

The core of a voxel game in which players build, craft and automate, written in
Verus, and the game's client around it.

- `src/` is the library. Its functions carry contracts that Verus proves, except
  for the small ones that call other crates (see the last section). Positions and rotations, the registries of the content, block
  components and their tree, ticks, machines and their scripts, palettes,
  textures and the atlas that they are packed into, models, the meshes of chunks,
  the world as the client knows it, the messages of the network, screens and
  their styles are all here. What holds of several functions together is stated
  by the proof functions whose names begin with `law_`.
- `tests/` runs the library on concrete values.
- `app/` is the client: the window, the device that draws, the connection, the
  files and what is computed with floating-point numbers. It hands the library
  plain values and does what the library decides.

The library holds no floating-point numbers. A float is carried without being
looked at, or compared by an integer that is ordered as the floats are.

## What is not proved

What the library has from other crates it gets through small functions that are
marked `#[verifier::external_body]`: the palettes of chunks, hash maps, queues,
the packing of the atlas, the reading and blending of pictures, compression,
base64, XML, random ids. Verus takes their contracts as they are, and every proof
that uses one rests on it. Their doc comments name the outside functions and say
what is relied on. A result that a few lines cannot state has a name, a
`pub uninterp spec fn`, of which no more is said than that the same arguments
give the same result.
