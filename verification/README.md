# neuro_compiler

The verified core of the NEURO compiler: the parts of compilation that decide
things, each with a contract that Verus proves.

- `control_flow` — control-flow graphs whose edge lists stay symmetric.
- `arguments` — named-argument binding: the naming rules each declaration imposes
  (`signatures`), binding one call site against them (`binding`, `calls`), hoisting
  effect-carrying arguments so they still run in the order written (`hoisting`), and
  the walk that reaches every call in a program with the local names in scope (`walk`),
  which errors a whole program reports and in which order (`reports`), and what it is
  rewritten to (`rewrites`). `arguments::ast` is the program as binding reads it.
- `lowering` — the reasoning of lowering: the typed program it produces (`hir`),
  rewriting a `.backward()` into a call of the derivative and the slot writes of its
  gradients (`backward`), the einsum
  subscript notation (`einsum`), row-major layout (`layout`), the shape intrinsics
  `.t()`, `.reshape`, `.permute`, `.flatten` and the axis argument (`shape`), the
  reductions `.sum`/`.mean`/`.max`/`.min` (`reduction`) and the selections
  `.sort`/`.argsort`/`.topk` (`selection`), slice bounds and index plans (`index`),
  tensor literals and constructors (`tensors`), the standard collections' method
  table (`collections`), the captures of a closure literal (`closures`),
  broadcasting and matrix-product shapes (`broadcast`), the names reverse-mode
  differentiation generates and the `wrt:` selection (`autodiff`), how a gradient is
  summed back to an operand's shape (`adjoint`), the operator-trait table
  (`operators`), the intrinsics' method names and the traversal and math functions
  they name (`methods`), and `LoweringError`.
- `gpu` — CUDA and Vulkan source generation, kernel recognition and launch
  validation, and backend selection.
- `text` — decimal numerals and character search.

`app/` holds what the library leaves to its caller: probing the machine for GPU
toolchains, and the error types with `Display` and `std::error::Error`.

Verify with Verus; `tests/` exercises the library on concrete programs and shapes.
