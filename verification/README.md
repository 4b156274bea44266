# cad_solver

The constraint-solving back end of a small CAD language, verified with Verus.

A resolved program (`hir`) is turned into a constraint problem and handed to the Z3
SMT solver:

- `solver::function_inliner` replaces function and method calls by their return
  expressions, with parameters substituted, and refuses recursive calls;
- `solver::recursive_struct_detector` finds structs that contain themselves;
- `solver::struct_flattener` expands struct and array types into their primitive
  fields (`line.start.x`, `points[1].y`);
- `solver::constraint_extractor` collects variables, comparisons and conditional
  constraints, or every error that the program's statements give;
- `solver::z3_bridge` translates the problem into Z3 terms and assertions (the calls
  into the `z3` crate are in `solver::z3_api`);
- `solver::solution_formatter` reads the values of the variables out of a model;
- `solver::context` keeps variables as trees that mirror their types, with aliases,
  evaluates constant (index) expressions and reads a whole solution out of a model;
- `solver::expr_solver` turns expressions into Z3 terms over the context's variables,
  and `solver::stmt_solver` declares the variables of `let` statements (a `&target`
  initializer makes an alias) and adds the constraints of statements (expressions,
  assignments, `if` branches as implications) to the context's solver and runs the
  iterative solve, whose decisions (iteration limit, complete, partial, unsatisfiable)
  are in `solver::solve_loop`;
- `solver::rune_code` wraps a rune block's body in a callable function.

`src/` is the verified library; every function there carries a contract that Verus
proves. `app/` holds what runs around it: compiling and running rune blocks with the
`rune` crate, the file and environment modules offered to rune code, and the
rendering of real values as decimal numbers. `tests/` exercises the library.
