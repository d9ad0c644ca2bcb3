# droidsaw_dex

A library for DEX files, the executables of Android. Everything it does is stated
in contracts and proved with Verus; the digest and the checksum of a file come from the
crates `sha1` and `adler2`.

- `emit_dex` serializes a file. The canonical layout puts the sections one after
  the other in a fixed order; on request the layout, the order of the map list, the
  widths of constants and the checksums of the file that was read are kept.
  `emit_dex::laws` states what a serialized file owes its readers: the file says what
  was serialized, every field reads back, and every offset leads to what it names.
- `emulator` executes single methods within a budget of instructions. An execution
  pauses where it calls a method, and goes on once somebody has said what the call
  comes to.
- `spr` turns methods into tokens. At the highest level they do not depend on the
  names of classes and members.
- `ssa` gives every value of a method a name of its own.

The other modules hold what these share: the parts of a file, opcodes and their
formats, numbers and text in their encodings.

`app` drives executions and naming where somebody else answers the questions that
come up on the way.
