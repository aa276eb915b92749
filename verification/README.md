# corrode

A small markdown site server. Pages are markdown files that open with TOML
frontmatter between two `---` lines; directories are shown as lists of links.

`src/` is the library, verified with Verus:

- `parsing` — the frontmatter grammar (`split_frontmatter`, `Frontmatter::parse`),
  positions in a document (`Span`), calendar dates (`Date`).
- `error` — the error types, and the rendering of parse errors (`ParseError::render`).
- `routes` — which directory entries are listed, their links, the listing page,
  and the files behind a page (`paths` holds the standard-library path calls).
- `middleware` — which responses the two layouts dress.
- `text` — string building blocks with their specifications.

`app/` is the server around it: axum routes and middleware, askama layouts,
file access, and TOML deserialisation of the frontmatter. `tests/` runs the
library on concrete documents and paths.
