# nym

Nym manipulates files using patterns: a from-pattern (a glob) selects source
files and captures parts of their paths, and a to-pattern resolves the
destination path of each source from those captures and from properties of
the file. Transforms collect the routes from sources to destinations into a
manifest, check them against a policy, and an actuator copies, links, or moves
the files.

The library in `src/` is written in Verus: its functions carry contracts over
mathematical models of their data, and Verus proves them.

- `glob`: the glob grammar (`token`), the rules that globs obey (`rule`), the
  regular expressions that globs compile to (`encode`, `matcher`), captures
  (`capture`), and the decisions of a walk over a directory tree (`read`).
- `pattern`: from-patterns (`from`), to-patterns with their grammar and
  resolution (`to`), and simple patterns.
- `manifest`: routes in which no source or destination occurs twice.
- `policy`: which routes may be written, given what the file system holds.
- `transform`, `environment`, `actuator`: building manifests and writing them.
- `text`, `terminal`, `option`, `memoized`: text formatting, the layout of
  printed listings, command line options, and memoized computations.

The command line program in `app/` walks directory trees, reads file
properties, asks the file system about destinations, prints listings and
prompts, and performs the file operations; it leaves every decision to the
library.
