# rho_lang

The ρ (RHO) array language: a program declares spaces (`NAME:◯ □ D1 D2`),
writes them with flows (`expr → NAME`), iterates with `⇒`, states
constraints with `!`, and ends at an equilibrium (`→ =`).

`src/` is the library, verified with Verus:

- `lexer`, `literal`, `expression`, `statement`, `definition`, `program`,
  `parser`: reading a program, its function definitions and their
  expansion, and the static checks on spaces and shapes;
- `ast`: the syntax tree and the shape algebra every target shares;
- `fusion`: folding an intermediate into its one reader;
- `expansion`, `symbolic`: a program's values at one cell, expanded
  symbolically for the constraint analysis;
- `dag`: the dependency graph (petgraph) and the audit walk over it;
- `tla`: a TLA+ module of the program's spaces;
- `sv`, `circuit`: the program as a SystemVerilog streaming pipeline,
  one cell per clock, with its Verilator harness; literals are written by
  the IEEE bits the caller reads them to;
- `llvm`, `kernel`: the native kernel as an LLVM module: expressions,
  shifts, folds and flow sweeps lowered scalar or as four-lane vectors,
  the buffers, the four C entrypoints, the metadata and the zero-copy
  bindings, with literals and 𝜏 given by their IEEE bits;
- `jax`: the program as a JAX module, with literals and 𝜏 spelled as
  the caller gives them;
- `order`: names in the order a sorted map walks them;
- `numeric`: the fixed-point datapath arithmetic;
- `irtext`: reading back the text of an emitted module;
- `layout`, `llvm_mode`, `python`, `circuit`, `fuzzing`, `cli`,
  `validation`, `diagnostic`, `error`, `text`: the smaller pieces the
  back ends and the driver share.

`app/` is the `rhoc` driver: files, the command line, clang, the interval
analysis of the constraints, reading literals as doubles, and the text of
the audit trace.

The laws the library states over the shape algebra and the glyph spellings
stand in `shape_laws`, `transpose_laws` (a transpose reads every source cell
once), `alias_laws` and beside the functions they speak of;
what the static checks on spaces and shapes promise stands in `space_laws`.

Not part of this crate: the reference interpreter and the IR machine that
checks an emitted kernel, which compute in floating point.
