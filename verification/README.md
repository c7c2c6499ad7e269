# sigil

The core logic of the Sigil compiler toolchain, verified with Verus.

- `src/` is the library. Its main parts:
  - match coverage: integer range sets (`int_ranges`), match spaces and
    their normalization, intersection, inclusion and difference (`space`,
    `space_ops`), the shape of normalized spaces (`normal_form`), what the
    spaces mean as sets of values and the laws the operations keep
    (`semantics`, `difference_meaning`), the spaces of literal patterns
    (`pattern_space`), narrowing by guards (`arith`, `refine`,
    `guards`), case summaries and arm descriptions (`summaries`,
    `arm_facts`), and the arm-by-arm check itself (`match_coverage`);
  - project layout and configuration rules (`project`, `paths`);
  - TypeScript code generation and the surface-form validator (`ast`,
    `codegen`, `surface_form`);
  - the compiler commands' decisions and reports (`commands`,
    `module_graph`, `json`, `type_error`).
- `tests/` runs the library on concrete inputs.
- `app/` holds what reads and writes files, runs processes and parses
  JSON configuration, around the library.
