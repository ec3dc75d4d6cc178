# die-yield

Wafer die-yield and probe-planning calculator with a verified core.

- `src/` is the library, verified with Verus. It holds the integer and text
  logic of the calculator: probe-span and candidate-grid input rules
  (`validation`), die-site counting, reproducible illustrative defect markers
  and probe-array coverage (`sites`, `random`), map tones (`scene`), the
  keyboard-focus bookkeeping of numeric fields (`focus`), and the text the
  calculator emits (`text`, `labels`, `report`). Each public function states
  its result exactly; proof functions named `lemma_*` state the laws that tie
  the results together.
- `app/` is the egui application around the library: floating-point wafer
  geometry and yield models, drawing, report rendering and file delivery.
- `tests/` exercise the library, including the default 300 mm setup.
