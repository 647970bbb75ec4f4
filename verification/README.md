# gluon

Parts of an implementation of the functional language gluon, verified with Verus.

- Type inference: `term` and `subs` are the mathematical models of types and of what is known of
  type variables; `union_table`, `substitution`, `unify`, `constraints` and `inference` hold the
  code that works on them. `substitution_laws`, `level_laws`, `constraint_laws`, `ending_laws`,
  `acyclic` and `inference_laws` prove what holds of all of it, such as that no variable comes to stand for a type
  in which it occurs.
- Types: `types`, `rewrite`, `alias`, `type_cache`, and `resolve`, which replaces aliases by the types
  that they name.
- The virtual machine as the host sees it: `value`, `value_ref`, `machine` (the stack and the memory
  of a thread), `thread` (the types that a thread knows) and `globals`.
- Marshalling: `api` has the traits `VmType`, `Pushable`, `AsyncPushable` and `Getable`. `scalar`,
  `compound`, `record`, `opaque`, `roles`, `generic`, `function` and `primitive` implement them. Every
  type that can be pushed and read back has a proof that it comes back as it was.
- `channel`: channels between threads, and starting and resuming threads.
- `import`: the `import!` macro, as a state machine that is told what the host has done and says what
  has to be done next.

`app/` holds what the library leaves to its host: files, running code and threads, futures,
floating point numbers, and the error traits of std. `tests/` runs the library.

What is trusted rather than proved are the small functions marked `external_body`, each of which
calls one function of std or of another crate, and the declarations of the types of those crates.
The comment above each says what it relies on.
