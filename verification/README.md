# ferrite_web

The logic of the Ferrite web front-ends (admin console, user management,
tavern chat) as a Rust library whose behaviour is stated in `requires` /
`ensures` contracts and proved with Verus.

## Layout

- `src/` — the verified library, one module per area:
  - `text` — characters, trimming, prefixes, decimal rendering and parsing;
  - `format`, `api`, `users` — the users page: number, date and key
    formats, filter options, statistics, filtering, the create/edit form,
    requests and notices;
  - `session` — the shared token store and its hooks;
  - `sse` — decoding the generation stream;
  - `network`, `manage`, `entities`, `console`, `settings` — the routing
    graph editor (wires, focus cones, hop counts, selection and focus
    state), the workspace shortcuts, the entity lists and channel model
    pools, the console shell;
  - `dock`, `chat`, `characters`, `lorebook`, `personas` — the tavern pages.
- `tests/` — executable tests of the library.
- `app/` — browser glue that stays outside the proofs: HTTP calls, JSON wire
  types, the clock, and the floating-point layout, physics, yuan amounts and
  usage percentages.

`src/` holds a handful of trusted items, each documented where it stands:
`String::push`, `str::to_lowercase`, `char::to_uppercase`, and the
`serde_json` lookup of a streamed delta.
