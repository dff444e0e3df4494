# eso_addons

The verified core of an addon manager for The Elder Scrolls Online.

`src/` is the library, every function of it checked by Verus against its
contract:

- `lexer`, `parser`, `bbcode`, `sexp`: the BBCode tokenizer (lossless), the
  tree parser (bounded nesting) and the s-expression form of a tree.
- `decode`, `sanitize`, `style`, `ir`, `render`: entity decoding, address,
  colour and size sanitizing, the block/inline layout of a description
  (every link and image it keeps has an allowed scheme, and no text it
  shows holds control or bidirectional formatting characters) and what the
  renderer draws of it.
- `addons`, `scan`, `deps`, `suggest`, `catalogue`, `install`, `sync`,
  `api`: the addon service's decisions on rows it read and rows it writes:
  manifests, installed-addon scans, dependency resolution, missing
  dependencies and the addons suggested for them, untracked addons, catalogue and category
  refreshes, installs and removals, price-table and HarvestMap syncs, and
  the catalogue endpoints.
- `config`, `service`, `promise`, `control`, `views`, `details`, `search`,
  `settings`, `basic`, `cli`, `corpus`: settings merges and upgrades, the
  records the views show, background tasks as the views follow them, and
  the bookkeeping of each view and of the application window.

`app/` is a small command-line front end that reads files and settings and
prints what the library makes of them. `tests/` exercises the library on
concrete values.
