# spessartine

The library behind a manga reader: natural ordering of names, the library
scan, chapter archives (ZIP/CBZ), page layout and navigation, the page
cache, leaving a chapter at its edge, the interactive reveal of effects,
the repair of sound maps as they are read, the playlist players as step
functions, thumbnails and settings. Every function in `src/` is verified with Verus against its
contract; the calls into `zip`, `image`, `kamadak-exif`, `dirs` and std's
paths and hashing stand behind small trusted wrappers whose contracts name
what they return.

- `src/` — the verified library, one module per concern.
- `tests/` — tests of the library on concrete values.
- `app/` — a command-line front end: file and database access, settings
  files, image scaling, and audio output, where the playlist players run
  the library's step function.
