# termnode

The layout, styling and text core of a terminal user-interface toolkit, verified with Verus,
and the terminal side that runs it.

- `src/` — the library, every function verified against its contract:
  - `style` — sizes, offsets, paddings, borders, alignment, and the size computations of a
    node's style;
  - `node` — node ids, the layout arithmetic of a node among its children (free space,
    justification, child placement, viewports, drawing order), and the layout of a node tree:
    each child placed in order and each node's canvas composed from its text and children;
  - `text` — grapheme-aware buffer lines, plain and styled texts, style spans (sorted and
    flattened), visual lines and wrapping;
  - `line`, `canvas` — styled lines (cut out, pasted, resized, pruned) and canvases (padding,
    borders, colors, composing children, rendering into a parent);
  - `app` — the hit map and viewport of the screen, focus cycling, event dispatch and
    recompute decisions;
  - `elements` — the state of the text input, the console history, tabs, drag and resize.
  - `unicode`, `strings` — the few calls into `unicode-segmentation`, `unicode-width` and
    `std` whose contracts the proofs rely on.
- `app/` — plain Rust around the library: the tree of shared nodes (converted to the
  library's layout tree to compute canvases), the event loop on crossterm, worker threads,
  floating-point colors, the console logger and the element builders.
- `tests/` — tests of the library on concrete values.
