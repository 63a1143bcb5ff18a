# geopq

The decisions of GeoPQ Workbench, a desktop viewer and command-line optimizer
for GeoParquet, as a library verified with Verus.

The library decides; its callers act. A session (`session`, `viewer`) holds
what the window has to know: layers and how much of each is loaded, loads in
flight, the projection, the camera, the selection. Every transition appends
what has to be done (start a load, rebuild a layer, move the camera) to an
outbox the caller drains. Values the session never looks into (opened files,
projections, geometry, styles) stay with the caller under a number.

## Layout

- `src/`: the library.
  - `session`, `viewer`, `loader`, `refine`, `filters`, `panel`, `layers`,
    `cancel`: the session and its transitions; `context` saves and restores it.
  - `laws`, `upkeep`, `arming`: what holds of every session.
  - `map`, `svg`, `styling`, `attrs`, `info`: what is drawn and what is said.
  - `export`, `publish`, `grids`, `joins`, `tables`, `imports`, `catalogs`,
    `repos`, `dialogs`: the dialogs and the work they start.
  - `cli`: the command line.
  - `settings`, `shots`, `calendar`, `counts`, `text`: files, the clock,
    numbers and text.
- `tests/`: scenarios on concrete values.
- `app/`: the window and the command line around the library, for a workbench
  that brings files, projections, geometry and the GPU.

Floating-point state is carried as the bits of the number, or in hundredths;
arithmetic on it is left to callers.
