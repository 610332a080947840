# nkdhr_ui

The verified core of a retained UI toolkit for a Wayland compositor shell.

`src/` is checked by Verus:

- `action/` — typed compositor actions: identifiers, argument schemas,
  triggers and their normalisation, the action catalog, binding compilation
  with conflict detection, the last-known-good binding runtime, continuous
  action dispatch, the built-in catalog and the canonical default bindings.
- `tree` — widget identities, dirty-pass masks, the generational widget
  arena, focus cycling and sibling key checks.
- `reactive` — root-local reactive values that only queue invalidation.
- `animation`, `motion`, `motion_consumers`, `motion_editor` — timelines,
  motion families and accessibility policy, the consumers a curve drives, and
  the curve editor's history, transactions, selection and key commands.
- `theme`, `theme_reads` — theme vocabulary and read-set invalidation.
- `text/` — atlas limits, glyph checks, grapheme-safe boundaries and the
  skyline packer whose placements never overlap.
- `host`, `input`, `layout`, `semantics` — frame pass bookkeeping and shared
  value types.

`app/` holds what the verifier does not take: the JSON form of binding
documents, closure adapters and floating-point timeline sampling.
