# layer_ui

The host-independent policy of a painting application's user interface,
written in Verus: every rule is an executable function with a contract that
Verus proves.

Layout:

- `src/` — the verified library.
  - `panel`, `platform`, `command`, `catalog` — panels, hosts, commands,
    menus, the icon catalogue and the layer tool set.
  - `toolbar` — toolbar tiles with stable identities and their editing moves.
  - `dock`, `workspace` — the docking tree (tab groups and splits), its
    queries and edits, the validation of a saved workspace, what panels
    leaving does to floating groups and collapsed columns, and handle
    double-clicks.
  - `moves` — screening of docking drags and column collapses: which are
    refused, which change nothing, what moves and where a new band goes.
  - `docking` — the workspace's docking as one value (`DockLayout`), its
    validity check, and its edits: the transactional moves of panels, tab
    groups and collapsed columns (and the routing of every drag, tiles
    included), showing, hiding and grouping panels, deleting toolbars, and
    collapsing or expanding side columns.
  - `presets` — the shipped Sketch and Photo arrangements, Paint's docking,
    the editor's default docking and the plain default docking.
  - `registry` — the panel registry's rules: each panel once, usable custom
    toolbar identities, titles unique ignoring case, nothing docked or
    shipped left unregistered.
  - `project` — the decisions a window makes when it adopts an opened
    project.
  - `profiles` — the content-addressed colour-profile library (SHA-256
    identities through `sha2`, quota accounting).
  - `print_proof`, `preview`, `numeric` — print-proof options and status,
    navigator preview scheduling, and screening of typed arithmetic.
  - `text` — character-level helpers (decimal numerals, text order, sorting).
- `tests/` — tests of the library's public functions.
- `app/` — host glue that Verus does not see: the docking host's pixel sizes,
  serde transport, floating-point number fields evaluated with `fasteval`,
  and the renderer polling loop.

Sizes, positions and other floating-point geometry are carried through the
library as opaque type parameters. Their values come from the host, through
judgement closures and size records such as `MoveSizes` and
`PresetSizes`; the code that measures a window and resolves geometry is not
part of this crate.
