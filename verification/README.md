# vericl

Contracts for GPU kernels written against CubeCL, with what the library decides and computes
verified by Verus.

The library answers three kinds of question about a kernel.

* What does it compute? `interp` runs a compiled kernel on concrete buffers, one thread after
  the other, and reports an access out of bounds, a division by zero or a construct outside the
  subset instead of going on. `semantics` is what it is verified against. Floating point comes
  from a unit that the caller hands in (`float`).
* Can it go out of bounds? `prover` walks the kernel and says what to ask an SMT solver next,
  from the solver's replies so far, until it has a verdict; `symbolic` is the walk as a
  mathematical function, `soundness` shows what a verdict is worth, and `monotone` that more
  assumes keep it.
* Is it still the kernel that was checked? `hash` and `locs` give it an identity.

`grammar`, `lowering`, `agreement` and `fuzz` hold a corpus of random kernels: a reference
evaluator, its translation into kernels, the proof that the interpreter agrees with it, and the
comparison of verdicts with what really happens.

The macro side turns source into generated code. `kernel` derives a kernel's module from its
contract (`contract`), its parameters (`conformance`) and its body (`tokens`, `twin`); `coop`
takes apart bodies whose threads meet at barriers; `config` and `cube_struct` check blocks of
declarations (`decl`, `syntax`); `suite` writes the conformance test.

Proof functions whose names begin with `law_` state what holds across functions.

`source` and `parser` ask the parser for source text and its parts, and `source` walks what it
prints; `reading` reads blocks of declarations and kernels from that, and `operators` holds the
operands of a body against it.

`app/` joins the library to the outside and is not verified: compiled kernels, the statements of
cooperative bodies and the tree of a body's operators in the library's own types, the solver
process, and the host's floating-point unit. `tests/` runs the library on concrete kernels and
declarations.
