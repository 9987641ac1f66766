# AstroCalc

A desktop observation planner for night-sky photography and visual astronomy:
pick a site and the parts of the sky you can see, then find when planets, the
Moon, deep-sky objects and the ISS are worth looking at.

## Layout

- `src/` — the verified library (Verus). It holds the planner's decisions and
  bookkeeping, each with a contract:
  - `timegrid` — night windows from sunrise/sunset, sampling grids, rounding;
  - `segments`, `order` — grouping sampled positions into continuous tracks,
    view-window filtering, stable time ordering, per-night visibility spans;
  - `catalog`, `selection`, `colors` — deep-sky identifiers, search, selection
    of bodies and catalog ids, colour keys;
  - `tle`, `iss` — ISS element-set text, cache ages, event kinds, the merged
    opportunity list;
  - `weather` — weather cache file names and freshness;
  - `prefetch`, `config_panel` — the background-job and dialog state machines
    that the GUI drives;
  - `labels`, `text` — the text the interface shows.
- `tests/` — tests of the library on concrete values.
- `app/` — the desktop program around the library: egui panels and plots,
  SQLite storage, HTTP fetches, and the floating-point astronomy (planet and
  Moon positions, SGP4 passes, disk transits).
