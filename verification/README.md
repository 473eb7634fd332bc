# xav

Chunked video encoding: a video is cut at its scenes, the chunks are encoded side by side, and the
pieces are joined again. Each chunk can be encoded at a fixed quality, or at the quality that meets
a target of a perceptual metric.

- `src/` is the library. It holds the command line and its rules, the course of a run, the commands
  and settings of the encoders, the paths and logs that a run writes, the search for a quality, and
  the texts that are shown. Every function states what it does, and Verus proves it, with the
  exception of what the library takes from std on trust: `String::push`, `str::from_utf8`,
  `str::to_lowercase` and `String::from_utf8_lossy`.
- `tests/` runs the library on concrete values.
- `app/` is the program around it: files, processes, threads, native libraries, and numbers with
  fractions. Such numbers cross into the library as bit patterns, whole numbers or finished texts.
