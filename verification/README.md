# Chubby Bunny

Soft-body physics for the browser, with bodies read from polygonal SVG drawings.

The crate is split in two:

- `src/` is the library, verified with Verus. It holds what the physics and the SVG
  pipeline decide with integers and text:
  - body identifiers;
  - the particle pairs and triples that the automatic constraints join;
  - the choice of attachment anchors, their pruning and their supports;
  - the SVG node tree, and which of its paths become bodies, with which children and in
    which drawing order;
  - which segments of SVG path data give the vertices of a polygon (svgtypes reads the
    segments);
  - which declarations of a style attribute take effect, and the colours that paint values
    name (svgtypes reads the paint values);
  - the mouse event queue;
  - the profiler's frame and scope bookkeeping;
  - the constraint and settings records, including those of simple bodies built in code.

  Each public function states what it returns in its `ensures`; the laws that relate
  several calls are public proof functions named `law_*`.

  The library also holds the pieces of an earlier SVG reader: a token-based polygon
  reader (`tokenize_path_data`, `parses_as_float`, `parse_simple_polygon_path`), a hex
  colour reader (`parse_hex_color`) and shape-aware shear pairs (`opposite_shear_pairs`).
  The application does not use them. `parses_as_float` is also what decides whether an
  opacity declaration takes effect.
- `app/` is the rest:
  - the floating-point physics (particles, constraint solving, collisions, forces, the
    fixed-step clock);
  - XML reading with quick-xml;
  - the coordinates, opacities and widths, which are floating-point numbers;
  - the profiler's clock;
  - randomness for spawning;
  - the WebAssembly playground.

  It calls into the library for the decisions listed above, except the pieces of the
  earlier reader.

`tests/` runs the library on concrete values, one or more tests for each law.
