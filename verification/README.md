# decayfmt

A file format that corrupts itself a little every time it is opened. The amount of
damage per open comes from the filename: `photo.idcy3` is an image at instability
x = 3, `note.tdcy7` text at x = 7, `clip.adcy5` audio at x = 5.

## Layout

- `src/` is the library, verified with Verus:
  - `format.rs`: the 16-byte header (magic `DCYF`, version, file type, per-type
    metadata, reserved bytes) and the filename convention, with the laws that a
    written header reads back unchanged and that reading ignores the reserved bytes
    and the payload.
  - `corrupt.rs`: the corruption of image, text and audio payloads from pools of
    random draws. Given the draws, each chunk function's result is stated exactly;
    for every outcome, the length is kept, a zero threshold changes nothing, text
    bytes only ever become printable ASCII, and image alpha bytes and trailing
    partial pixels are never touched; regions corrupted on their own compose into
    a corruption of the whole payload. Generators are seeded from operating system
    entropy, and a failure to seed is reported, not a panic.
  - `encode.rs`: turning source bytes into a header and a clean payload (RGBA
    pixels through `image`, UTF-8 text as is, 16-bit PCM through `symphonia`).
  - `open.rs`: what an open does to a file's bytes: the header is checked against
    the name, never changed, and only the payload decays.
  - `error.rs`: the typed errors.
- `app/` holds what stays outside the library: file I/O under an advisory lock
  (`fs2`), the floating-point curve p = 1 - exp(-x / 10) that turns x into a
  threshold, corruption of large payloads on several threads (`rayon`), and
  displaying a decayed file (`image`, `hound`, the system's default viewer).
- `tests/` exercises the library on concrete values.
