# bitty_ui

The headless side of a terminal workspace: layout trees, focus, panels,
gestures, beacons, accessibility, canvases, budgets, motion and styles, with
contracts that Verus proves. Nothing here renders, reads a clock or does I/O.

## Layout

- `src/` is the verified library. Every executable function states its result
  in `ensures`; what holds across functions stands beside them as public proof
  functions.
  - Space: `geometry`, `view`, `tree` (the mathematical model of a layout),
    `tree_laws`, `layout`, `layout_edit`, `focus`, `decoration`, `drag`,
    `gesture`, `presentation`, `scratchpad`, `placement`.
  - Tilers: `provider`, `provider_registry`, `tilers`.
  - Panels: `panel`, `panel_overlay`, `panel_command`, `panel_state`,
    `panel_identity`, `panel_rules`, `panel_lua`, `drag_bar`.
  - Persistence: `panel_persist`, `panel_record`, `panel_record_laws`,
    `panel_rehydrate`.
  - Beacons: `beacon_target`, `beacon_label`, `beacon_layer`,
    `beacon_dispatch`, `beacon_provider`.
  - Accessibility: `term_state`, `a11y`, `a11y_tree`, `a11y_laws`.
  - Surfaces: `canvas`, `uitree`, `budget`, `motion`, `theme`,
    `resolved_style`, `workspace_scene`.
  - Groundwork: `text`, `seqs`, `float32`, `float64`.
- `tests/` runs the library on concrete values.
- `app/` holds what floating point needs, and `Display` for the messages.

## Numbers

The library holds floating-point numbers by their bit patterns, as `Float32`
and `Float64`. Ratios are multiplied, clamped and compared by integer
arithmetic that rounds as IEEE 754 does; the easing curves stay outside.

## What is trusted

One contract is believed without proof: that `String::push` appends a
character. Two more functions of the standard library are called with nothing
claimed of their results: `RandomState::new` and `BuildHasher::hash_one`, from
which a new accessibility tree draws its brand.
