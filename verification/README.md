# winusb_switcher_lite

The decision logic of WinUSB Switcher Lite, a desktop tool that unpacks a
bundled SEGGER J-Link and puts it on the process search paths, written in
Verus with its contracts proved.

Layout:

- `src/text.rs`: character-level text functions with exact specifications
  (substring search, Unicode whitespace trimming, `str::lines`, splitting,
  decimal rendering) and the three `std` conversions taken on trust
  (`String::from_iter`, `str::to_lowercase`, `String::from_utf8_lossy`).
- `src/paths.rs`: path text as `std::path` reads it; the zip-entry check that
  keeps extraction inside its directory; POSIX joining.
- `src/bundled.rs`: payload architecture and location, zip header check,
  per-entry extraction plan, Linux install layout, executable fix-ups and udev
  rules decisions.
- `src/archive.rs`: the payload zip decoded by the `zip` crate and turned,
  entry by entry, into the steps of its extraction.
- `src/bootstrap.rs`: the bootstrap as a state machine, with laws over its
  traces.
- `src/udev.rs`: the udev rules check made on every start and the elevated
  helper that extracts, fixes up and installs the rules in one authorization,
  as state machines.
- `src/rules_search.rs`: the depth-first search of the install tree for a
  `*jlink*.rules` file, as a step function.
- `src/platform.rs`: per-OS J-Link names, `PATH` and `LD_LIBRARY_PATH`
  values, and the search-directory lookup.
- `src/runner.rs`: the J-Link Commander version banner, the decoding of its
  output and the error of a failing run.
- `app/`: the Tauri shell (file, process and environment I/O) that performs
  what the library decides.
- `tests/`: tests of the library on concrete values.
