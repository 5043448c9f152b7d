# viewskater

The core of a fast image viewer, verified with Verus: the sliding window of cached images
around the shown one, the queues of load operations and what each arriving image does to the
panes, keyboard handling, the settings dialog's checks, COCO annotation handling (validation,
run-length mask decoding, contour tracing, grouping by image) and BC1 block encoding.

## Layout

- `src/` — the verified library. Every public function states its result in `ensures`;
  public `proof fn`s state the laws that relate several calls (for example that moving the
  window forward and back restores it, that text written by the settings dialog reads back
  as the same settings, or that toggling an overlay twice changes nothing).
- `tests/` — tests on concrete values, run against the compiled library.
- `app/` — a terminal front end: reading folders, archives and files, COCO JSON through
  serde, the floating-point parts (range-fit endpoints, polygon simplification, the colour
  palette, human-readable sizes), and the loop that steps through the images.

Outside crates are called from the library only through small trusted wrappers, each with a
doc comment that says what its contract claims of the crate it calls.
